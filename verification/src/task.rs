//! The task entity: an identifiable unit of work with an optional function
//! label, a criticality flag, a thread/scope id, and non-owning links to
//! parent and child tasks.

use vstd::prelude::*;

verus! {

/// A unit of work.  All cross-references are ids: the optional `function`
/// id points into the function registry, and `parents` / `children` hold
/// ids of other tasks.  An id whose task has since been deleted simply
/// fails to resolve on the next lookup; it is never an error.
pub struct Task {
    pub id: u64,
    pub thread_id: u64,
    pub function: Option<u64>,
    pub is_critical: bool,
    pub parents: Vec<u64>,
    pub children: Vec<u64>,
}

/// The mathematical value of a [`Task`].
#[verifier::ext_equal]
pub struct TaskV {
    pub id: u64,
    pub thread_id: u64,
    pub function: Option<u64>,
    pub is_critical: bool,
    pub parents: Seq<u64>,
    pub children: Seq<u64>,
}

impl View for Task {
    type V = TaskV;

    open spec fn view(&self) -> TaskV {
        TaskV {
            id: self.id,
            thread_id: self.thread_id,
            function: self.function,
            is_critical: self.is_critical,
            parents: self.parents@,
            children: self.children@,
        }
    }
}

/// How often the id `v` occurs in a list of task links.
pub open spec fn occ(s: Seq<u64>, v: u64) -> nat
    decreases s.len(),
{
    if s.len() == 0 {
        0
    } else {
        occ(s.drop_last(), v) + if s.last() == v {
            1nat
        } else {
            0nat
        }
    }
}

/// Appending one id raises its own count by one and no other.
pub proof fn lemma_occ_push(s: Seq<u64>, v: u64, w: u64)
    ensures
        occ(s.push(v), w) == occ(s, w) + if v == w {
            1nat
        } else {
            0nat
        },
{
    assert(s.push(v).drop_last() =~= s);
}

/// An id that occurs nowhere has count zero.
pub proof fn lemma_occ_absent(s: Seq<u64>, v: u64)
    requires
        forall|k: int| 0 <= k < s.len() ==> s[k] != v,
    ensures
        occ(s, v) == 0,
    decreases s.len(),
{
    if s.len() > 0 {
        lemma_occ_absent(s.drop_last(), v);
    }
}

/// The function-id slot of the flattened form: the referenced function's id
/// when the reference resolves, else the task's own id — a deliberate
/// sentinel that callers must not mistake for a valid function id.
pub open spec fn raw_function_id(t: TaskV) -> u64 {
    match t.function {
        Some(fid) => fid,
        None => t.id,
    }
}

impl Task {
    /// The flattened form handed to the foreign boundary:
    /// `(task id, function id, criticality as 0/1, thread id)`.
    pub fn into_raw_parts(&self) -> (r: (u64, u64, u64, u64))
        ensures
            r.0 == self@.id,
            r.1 == raw_function_id(self@),
            r.2 == if self@.is_critical { 1u64 } else { 0u64 },
            r.3 == self@.thread_id,
    {
        let function_id = match self.function {
            Some(fid) => fid,
            None => self.id,
        };
        (self.id, function_id, if self.is_critical { 1 } else { 0 }, self.thread_id)
    }

    pub fn get_id(&self) -> (r: u64)
        ensures
            r == self@.id,
    {
        self.id
    }
}

} // verus!
