//! The application state: owns all functions and tasks, issues identifiers,
//! and keeps the parent/child dependency bookkeeping consistent.

use vstd::prelude::*;
use vstd::utf8::is_ascii_chars;

use crate::function::Function;
use crate::function::FunctionV;
use crate::task::occ;
use crate::task::Task;
use crate::task::TaskV;
use crate::text::default_name_seq;
use crate::text::trim_seq;
use crate::text::trim_str;

verus! {

/// The container that owns every [`Function`] and [`Task`].  All
/// cross-references between entities are ids into these collections, so
/// deleting a task never leaves a dangling forward link: a stale id simply
/// fails to resolve on its next lookup.
pub struct AppState {
    pub is_pre_init: bool,
    pub is_init: bool,
    pub tasks: Vec<Task>,
    pub functions: Vec<Function>,
    pub task_id_count: u64,
}

/// The mathematical value of an [`AppState`].
#[verifier::ext_equal]
pub struct StateV {
    pub is_pre_init: bool,
    pub is_init: bool,
    pub tasks: Seq<TaskV>,
    pub functions: Seq<FunctionV>,
    pub task_id_count: u64,
}

impl View for AppState {
    type V = StateV;

    open spec fn view(&self) -> StateV {
        StateV {
            is_pre_init: self.is_pre_init,
            is_init: self.is_init,
            tasks: self.tasks@.map_values(|t: Task| t@),
            functions: self.functions@.map_values(|f: Function| f@),
            task_id_count: self.task_id_count,
        }
    }
}

/// Whether some live task carries the id.
pub open spec fn has_task_id(tasks: Seq<TaskV>, id: u64) -> bool {
    exists|i: int| 0 <= i < tasks.len() && tasks[i].id == id
}

/// The position of the live task that carries the id (unique when the ids
/// are strictly increasing in storage order).
pub open spec fn task_index(tasks: Seq<TaskV>, id: u64) -> int {
    choose|i: int| 0 <= i < tasks.len() && tasks[i].id == id
}

/// Tasks are stored in creation order, so their ids strictly increase.
pub open spec fn task_ids_increasing(tasks: Seq<TaskV>) -> bool {
    forall|i: int, j: int|
        0 <= i < j < tasks.len() ==> (#[trigger] tasks[i]).id < (#[trigger] tasks[j]).id
}

/// With strictly increasing ids, an id picks out at most one position.
pub proof fn lemma_task_index_unique(tasks: Seq<TaskV>, i: int, id: u64)
    requires
        task_ids_increasing(tasks),
        0 <= i < tasks.len(),
        tasks[i].id == id,
    ensures
        task_index(tasks, id) == i,
        has_task_id(tasks, id),
{
    assert(has_task_id(tasks, id));
    let j = task_index(tasks, id);
    assert(0 <= j < tasks.len() && tasks[j].id == id);
    if i < j {
        assert(tasks[i].id < tasks[j].id);
    } else if j < i {
        assert(tasks[j].id < tasks[i].id);
    }
}

/// A fresh task value: empty link lists, everything else as supplied.
pub open spec fn new_task_v(id: u64, thread_id: u64, function: Option<u64>, is_critical: bool) -> TaskV {
    TaskV {
        id,
        thread_id,
        function,
        is_critical,
        parents: Seq::empty(),
        children: Seq::empty(),
    }
}

/// How one task changes when the edge `(p, c)` is recorded: the parent
/// appends a child link, the child appends a parent link, and every other
/// task keeps its lists.  A task that is both parent and child (a self-edge)
/// appends to both lists.
pub open spec fn dep_updated(t: TaskV, p: u64, c: u64) -> TaskV {
    TaskV {
        id: t.id,
        thread_id: t.thread_id,
        function: t.function,
        is_critical: t.is_critical,
        parents: if t.id == c {
            t.parents.push(p)
        } else {
            t.parents
        },
        children: if t.id == p {
            t.children.push(c)
        } else {
            t.children
        },
    }
}

/// The whole effect of recording the edge `(p, c)`: both endpoint lists grow
/// by the matched pair and nothing else moves.
pub open spec fn add_dep_post(pre: StateV, post: StateV, p: u64, c: u64) -> bool {
    &&& post.is_pre_init == pre.is_pre_init
    &&& post.is_init == pre.is_init
    &&& post.functions == pre.functions
    &&& post.task_id_count == pre.task_id_count
    &&& post.tasks.len() == pre.tasks.len()
    &&& forall|i: int|
        0 <= i < pre.tasks.len() ==> #[trigger] post.tasks[i] == dep_updated(pre.tasks[i], p, c)
}

/// A fresh id is unused: in a well-formed state every live task's id lies
/// below the counter, so the id the next creation hands out — the counter
/// itself — differs from every id ever issued, deleted ones included.
pub proof fn lemma_fresh_id_unused(s: StateV)
    requires
        s.wf(),
    ensures
        forall|i: int| 0 <= i < s.tasks.len() ==> (#[trigger] s.tasks[i]).id != s.task_id_count,
        !has_task_id(s.tasks, s.task_id_count),
{
    assert forall|i: int| 0 <= i < s.tasks.len() implies (#[trigger] s.tasks[i]).id
        != s.task_id_count by {
        assert(s.task_wf(s.tasks[i]));
    }
}

/// Task ids are never reused, deleted ids included.  Every id ever issued
/// lies below the counter, a creation hands out the counter itself as the
/// new id and then grows the counter — so the new task cannot carry any
/// previously issued id, and an id once gone from the live set stays gone.
pub proof fn lemma_issued_id_never_reused(pre: StateV, post: StateV, issued_id: u64, t: TaskV)
    requires
        pre.wf(),
        issued_id < pre.task_id_count,
        t.id == pre.task_id_count,
        post.tasks == pre.tasks.push(t),
        post.task_id_count == pre.task_id_count + 1,
    ensures
        t.id != issued_id,
        issued_id < post.task_id_count,
        !has_task_id(pre.tasks, issued_id) ==> !has_task_id(post.tasks, issued_id),
{
    if !has_task_id(pre.tasks, issued_id) && has_task_id(post.tasks, issued_id) {
        let i = task_index(post.tasks, issued_id);
        assert(0 <= i < post.tasks.len() && post.tasks[i].id == issued_id);
        if i < pre.tasks.len() {
            assert(has_task_id(pre.tasks, issued_id));
        } else {
            assert(post.tasks[i] == t);
        }
    }
}

proof fn lemma_add_dep_post_wf(pre: StateV, post: StateV, p: u64, c: u64)
    requires
        pre.wf(),
        has_task_id(pre.tasks, p),
        has_task_id(pre.tasks, c),
        add_dep_post(pre, post, p, c),
    ensures
        post.wf(),
{
    let pii = task_index(pre.tasks, p);
    let cii = task_index(pre.tasks, c);
    assert(0 <= pii < pre.tasks.len() && pre.tasks[pii].id == p);
    assert(0 <= cii < pre.tasks.len() && pre.tasks[cii].id == c);
    assert(pre.task_wf(pre.tasks[pii]));
    assert(pre.task_wf(pre.tasks[cii]));
    assert forall|i: int, j: int| 0 <= i < j < post.tasks.len() implies (
    #[trigger] post.tasks[i]).id < (#[trigger] post.tasks[j]).id by {
        assert(pre.tasks[i].id < pre.tasks[j].id);
    }
    assert forall|i: int| 0 <= i < post.tasks.len() implies post.task_wf(
        #[trigger] post.tasks[i],
    ) by {
        let t = pre.tasks[i];
        assert(pre.task_wf(t));
        assert(post.tasks[i] == dep_updated(t, p, c));
        if t.id == p {
            assert forall|k: int| 0 <= k < post.tasks[i].children.len() implies #[trigger] post.tasks[i].children[k]
                < post.task_id_count by {
                if k < t.children.len() {
                    assert(t.children[k] < pre.task_id_count);
                } else {
                    assert(post.tasks[i].children[k] == c);
                }
            }
        }
        if t.id == c {
            assert forall|k: int| 0 <= k < post.tasks[i].parents.len() implies #[trigger] post.tasks[i].parents[k]
                < post.task_id_count by {
                if k < t.parents.len() {
                    assert(t.parents[k] < pre.task_id_count);
                } else {
                    assert(post.tasks[i].parents[k] == p);
                }
            }
        }
    }
    assert forall|i: int, j: int|
        0 <= i < post.tasks.len() && 0 <= j < post.tasks.len() implies occ(
        (#[trigger] post.tasks[i]).children,
        post.tasks[j].id,
    ) == occ((#[trigger] post.tasks[j]).parents, post.tasks[i].id) by {
        let ti = pre.tasks[i];
        let tj = pre.tasks[j];
        assert(occ(ti.children, tj.id) == occ(tj.parents, ti.id));
        assert(post.tasks[i] == dep_updated(ti, p, c));
        assert(post.tasks[j] == dep_updated(tj, p, c));
        if ti.id == p {
            crate::task::lemma_occ_push(ti.children, c, tj.id);
        }
        if tj.id == c {
            crate::task::lemma_occ_push(tj.parents, p, ti.id);
        }
    }
}

/// The state a fresh container starts in.
pub open spec fn empty_state() -> StateV {
    StateV {
        is_pre_init: false,
        is_init: false,
        tasks: Seq::empty(),
        functions: Seq::empty(),
        task_id_count: 0,
    }
}

impl StateV {
    /// Function ids equal their position in the registry — they are handed
    /// out sequentially and functions are never deleted — and every stored
    /// name is a well-formed null-terminated ASCII string.
    pub open spec fn functions_wf(self) -> bool {
        forall|i: int|
            0 <= i < self.functions.len() ==> {
                &&& (#[trigger] self.functions[i]).id == i
                &&& self.functions[i].wf()
            }
    }

    /// A single task: its id is below the counter, its function reference
    /// points into the registry, and every parent/child link holds an id
    /// that was issued before (possibly of a task deleted since).
    pub open spec fn task_wf(self, t: TaskV) -> bool {
        &&& t.id < self.task_id_count
        &&& (t.function matches Some(fid) ==> fid < self.functions.len())
        &&& (forall|k: int| 0 <= k < t.parents.len() ==> #[trigger] t.parents[k] < self.task_id_count)
        &&& (forall|k: int| 0 <= k < t.children.len() ==> #[trigger] t.children[k] < self.task_id_count)
    }

    /// Parent/child edges are recorded as matched pairs: between any two
    /// live tasks, the child-side and parent-side link counts agree.
    pub open spec fn edges_paired(self) -> bool {
        forall|i: int, j: int|
            0 <= i < self.tasks.len() && 0 <= j < self.tasks.len() ==> occ(
                (#[trigger] self.tasks[i]).children,
                self.tasks[j].id,
            ) == occ((#[trigger] self.tasks[j]).parents, self.tasks[i].id)
    }

    pub open spec fn wf(self) -> bool {
        &&& self.functions_wf()
        &&& task_ids_increasing(self.tasks)
        &&& (forall|i: int| 0 <= i < self.tasks.len() ==> self.task_wf(#[trigger] self.tasks[i]))
        &&& self.edges_paired()
    }
}

impl AppState {
    pub fn new() -> (r: AppState)
        ensures
            r@ == empty_state(),
            r@.wf(),
    {
        let r = AppState {
            is_pre_init: false,
            is_init: false,
            tasks: Vec::new(),
            functions: Vec::new(),
            task_id_count: 0,
        };
        proof {
            assert(r@ =~= empty_state());
        }
        r
    }

    /// Records that the pre-initialisation event went out.  The flag is
    /// one-shot: a second attempt reports that it was already done and
    /// changes nothing.
    pub fn mark_pre_init(&mut self) -> (r: Option<()>)
        ensures
            old(self).is_pre_init ==> r is None && final(self)@ == old(self)@,
            !old(self).is_pre_init ==> r is Some && final(self)@ == (StateV {
                is_pre_init: true,
                ..old(self)@
            }),
            old(self)@.wf() ==> final(self)@.wf(),
    {
        if self.is_pre_init {
            None
        } else {
            self.is_pre_init = true;
            Some(())
        }
    }

    /// Records that the initialisation event went out.  One-shot, like
    /// [`AppState::mark_pre_init`].
    pub fn mark_init(&mut self) -> (r: Option<()>)
        ensures
            old(self).is_init ==> r is None && final(self)@ == old(self)@,
            !old(self).is_init ==> r is Some && final(self)@ == (StateV {
                is_init: true,
                ..old(self)@
            }),
            old(self)@.wf() ==> final(self)@.wf(),
    {
        if self.is_init {
            None
        } else {
            self.is_init = true;
            Some(())
        }
    }

    /// Creates a new function from a user-provided name.
    ///
    /// The name is trimmed first.  A blank name always succeeds and gets the
    /// auto-generated label `default_function_<id>`; any other name must be
    /// pure ASCII, else nothing is created and no id is consumed.  The id is
    /// the current registry size, so ids are sequential from zero.
    pub fn create_function(&mut self, name: String) -> (r: Option<Function>)
        requires
            old(self)@.wf(),
        ensures
            final(self)@.wf(),
            final(self)@.is_pre_init == old(self)@.is_pre_init,
            final(self)@.is_init == old(self)@.is_init,
            final(self)@.tasks == old(self)@.tasks,
            final(self)@.task_id_count == old(self)@.task_id_count,
            trim_seq(name@).len() == 0 ==> (r matches Some(f) && {
                &&& f@.id == old(self)@.functions.len()
                &&& f@.name == default_name_seq(old(self)@.functions.len())
                &&& final(self)@.functions == old(self)@.functions.push(f@)
            }),
            trim_seq(name@).len() > 0 && is_ascii_chars(trim_seq(name@)) ==> (r matches Some(f) && {
                &&& f@.id == old(self)@.functions.len()
                &&& f@.name == trim_seq(name@).push('\0')
                &&& final(self)@.functions == old(self)@.functions.push(f@)
            }),
            trim_seq(name@).len() > 0 && !is_ascii_chars(trim_seq(name@)) ==> (r is None
                && final(self)@ == old(self)@),
    {
        let id = self.functions.len() as u64;
        let trimmed = trim_str(name.as_str());
        if trimmed.is_empty() {
            let f = Function::with_default_name(id);
            let handle = Function { id: f.id, name: f.name.clone() };
            self.functions.push(f);
            proof {
                assert(self@.functions =~= old(self)@.functions.push(f@));
                assert(self@.tasks =~= old(self)@.tasks);
            }
            Some(handle)
        } else {
            match Function::new(id, trimmed.to_owned()) {
                Ok(f) => {
                    let handle = Function { id: f.id, name: f.name.clone() };
                    self.functions.push(f);
                    proof {
                        assert(self@.functions =~= old(self)@.functions.push(f@));
                        assert(self@.tasks =~= old(self)@.tasks);
                    }
                    Some(handle)
                },
                Err(_) => None,
            }
        }
    }

    /// Creates a task with a fresh id.
    ///
    /// A supplied `function_id` must index an existing function; otherwise
    /// the call fails and no task is created.  The id counter only ever
    /// grows, so an id is never reused, even after the task is deleted.
    /// Returns a snapshot handle of the new task.
    pub fn create_task(&mut self, is_critical: bool, function_id: Option<u64>, thread_id: u64) -> (r:
        Result<Task, &'static str>)
        requires
            old(self)@.wf(),
            old(self)@.task_id_count < u64::MAX,
        ensures
            final(self)@.wf(),
            final(self)@.is_pre_init == old(self)@.is_pre_init,
            final(self)@.is_init == old(self)@.is_init,
            final(self)@.functions == old(self)@.functions,
            (function_id matches Some(fid) && fid >= old(self)@.functions.len()) ==> (r matches Err(
                m,
            ) && m@ == "Provided id not in list."@ && final(self)@ == old(self)@),
            (function_id is None || (function_id matches Some(fid) && fid < old(
                self,
            )@.functions.len())) ==> (r matches Ok(t) && {
                &&& t@ == new_task_v(old(self)@.task_id_count, thread_id, function_id, is_critical)
                &&& final(self)@.tasks == old(self)@.tasks.push(t@)
                &&& final(self)@.task_id_count == old(self)@.task_id_count + 1
            }),
    {
        match function_id {
            Some(fid) => {
                if fid >= self.functions.len() as u64 {
                    return Err("Provided id not in list.");
                }
            },
            None => {},
        }
        let id = self.task_id_count;
        self.task_id_count = self.task_id_count + 1;
        let task = Task {
            id,
            thread_id,
            function: function_id,
            is_critical,
            parents: Vec::new(),
            children: Vec::new(),
        };
        let handle = Task {
            id,
            thread_id,
            function: function_id,
            is_critical,
            parents: Vec::new(),
            children: Vec::new(),
        };
        self.tasks.push(task);
        proof {
            assert(self@.tasks =~= old(self)@.tasks.push(handle@));
            assert(self@.functions =~= old(self)@.functions);
            let post = self@;
            let pre = old(self)@;
            let n = pre.tasks.len() as int;
            let nt = post.tasks[n];
            assert forall|i: int, j: int|
                0 <= i < post.tasks.len() && 0 <= j < post.tasks.len() implies occ(
                (#[trigger] post.tasks[i]).children,
                post.tasks[j].id,
            ) == occ((#[trigger] post.tasks[j]).parents, post.tasks[i].id) by {
                if i < n && j < n {
                    assert(post.tasks[i] == pre.tasks[i]);
                    assert(post.tasks[j] == pre.tasks[j]);
                } else {
                    if i == n {
                        crate::task::lemma_occ_absent(nt.children, post.tasks[j].id);
                    } else {
                        assert(forall|k: int|
                            0 <= k < post.tasks[i].children.len()
                                ==> #[trigger] post.tasks[i].children[k] < pre.task_id_count);
                        crate::task::lemma_occ_absent(post.tasks[i].children, nt.id);
                    }
                    if j == n {
                        crate::task::lemma_occ_absent(nt.parents, post.tasks[i].id);
                    } else {
                        assert(forall|k: int|
                            0 <= k < post.tasks[j].parents.len()
                                ==> #[trigger] post.tasks[j].parents[k] < pre.task_id_count);
                        crate::task::lemma_occ_absent(post.tasks[j].parents, nt.id);
                    }
                }
            }
        }
        Ok(handle)
    }

    /// Removes the task with the given id from the owned collection.
    ///
    /// Fails when the id is not found.  Links to the removed task that other
    /// tasks still hold are left in place; they fail to resolve on their
    /// next lookup, which readers treat as "link is gone", never an error.
    pub fn delete_task(&mut self, task_id: u64) -> (r: Option<()>)
        requires
            old(self)@.wf(),
        ensures
            final(self)@.wf(),
            !has_task_id(old(self)@.tasks, task_id) ==> (r is None && final(self)@ == old(self)@),
            has_task_id(old(self)@.tasks, task_id) ==> (r is Some && {
                &&& final(self)@.tasks == old(self)@.tasks.remove(
                    task_index(old(self)@.tasks, task_id),
                )
                &&& !has_task_id(final(self)@.tasks, task_id)
                &&& final(self)@.is_pre_init == old(self)@.is_pre_init
                &&& final(self)@.is_init == old(self)@.is_init
                &&& final(self)@.functions == old(self)@.functions
                &&& final(self)@.task_id_count == old(self)@.task_id_count
            }),
    {
        let n = self.tasks.len();
        let mut i: usize = 0;
        while i < n
            invariant
                0 <= i <= n,
                n == self.tasks@.len(),
                self@ == old(self)@,
                old(self)@.wf(),
                forall|k: int| 0 <= k < i ==> (#[trigger] self@.tasks[k]).id != task_id,
            decreases n - i,
        {
            if self.tasks[i].id == task_id {
                proof {
                    lemma_task_index_unique(self@.tasks, i as int, task_id);
                }
                let ghost pre = self@;
                self.tasks.remove(i);
                proof {
                    let ii = i as int;
                    assert(self@.tasks =~= pre.tasks.remove(ii));
                    assert(self@.functions =~= pre.functions);
                    let post = self@;
                    assert forall|a: int| 0 <= a < post.tasks.len() implies #[trigger] post.tasks[a]
                        == pre.tasks[if a < ii {
                        a
                    } else {
                        a + 1
                    }] by {
                        pre.tasks.remove_ensures(ii);
                    }
                    assert forall|a: int, b: int| 0 <= a < b < post.tasks.len() implies (
                    #[trigger] post.tasks[a]).id < (#[trigger] post.tasks[b]).id by {
                        let a2 = if a < ii {
                            a
                        } else {
                            a + 1
                        };
                        let b2 = if b < ii {
                            b
                        } else {
                            b + 1
                        };
                        assert(pre.tasks[a2].id < pre.tasks[b2].id);
                    }
                    assert forall|a: int| 0 <= a < post.tasks.len() implies post.task_wf(
                        #[trigger] post.tasks[a],
                    ) by {
                        let a2 = if a < ii {
                            a
                        } else {
                            a + 1
                        };
                        assert(pre.task_wf(pre.tasks[a2]));
                    }
                    assert forall|a: int, b: int|
                        0 <= a < post.tasks.len() && 0 <= b < post.tasks.len() implies occ(
                        (#[trigger] post.tasks[a]).children,
                        post.tasks[b].id,
                    ) == occ((#[trigger] post.tasks[b]).parents, post.tasks[a].id) by {
                        let a2 = if a < ii {
                            a
                        } else {
                            a + 1
                        };
                        let b2 = if b < ii {
                            b
                        } else {
                            b + 1
                        };
                        assert(occ(pre.tasks[a2].children, pre.tasks[b2].id) == occ(
                            pre.tasks[b2].parents,
                            pre.tasks[a2].id,
                        ));
                    }
                    assert forall|a: int| 0 <= a < post.tasks.len() implies (
                    #[trigger] post.tasks[a]).id != task_id by {
                        let a2 = if a < ii {
                            a
                        } else {
                            a + 1
                        };
                        if a2 > ii {
                            assert(pre.tasks[ii].id < pre.tasks[a2].id);
                        }
                        if a2 < ii {
                            assert(pre.tasks[a2].id < pre.tasks[ii].id);
                        }
                    }
                    assert(post.wf());
                }
                return Some(());
            }
            i = i + 1;
        }
        None
    }

    fn find_task_index(&self, id: u64) -> (r: Option<usize>)
        ensures
            match r {
                Some(i) => i < self@.tasks.len() && self@.tasks[i as int].id == id,
                None => !has_task_id(self@.tasks, id),
            },
    {
        let n = self.tasks.len();
        let mut i: usize = 0;
        while i < n
            invariant
                0 <= i <= n,
                n == self.tasks@.len(),
                forall|k: int| 0 <= k < i ==> (#[trigger] self@.tasks[k]).id != id,
            decreases n - i,
        {
            if self.tasks[i].id == id {
                return Some(i);
            }
            i = i + 1;
        }
        None
    }

    /// Records the dependency edge `(parent_id, child_id)`.
    ///
    /// Fails, changing nothing, when either id is not found.  On success the
    /// edge is appended on both endpoints in one step.  No self-loop or
    /// cycle check is made here by design: rejecting `parent == child` is
    /// the caller's duty, and the graph accepts whatever pair it is given.
    pub fn add_dependency(&mut self, parent_id: u64, child_id: u64) -> (r: Option<()>)
        requires
            old(self)@.wf(),
        ensures
            final(self)@.wf(),
            !(has_task_id(old(self)@.tasks, parent_id) && has_task_id(old(self)@.tasks, child_id))
                ==> (r is None && final(self)@ == old(self)@),
            has_task_id(old(self)@.tasks, parent_id) && has_task_id(old(self)@.tasks, child_id)
                ==> (r is Some && add_dep_post(old(self)@, final(self)@, parent_id, child_id)),
    {
        if !self.does_task_exist(parent_id) {
            return None;
        }
        if !self.does_task_exist(child_id) {
            return None;
        }
        let ghost pre = self@;
        let pi = match self.find_task_index(parent_id) {
            Some(i) => i,
            None => {
                return None;
            },
        };
        let ci = match self.find_task_index(child_id) {
            Some(i) => i,
            None => {
                return None;
            },
        };
        let mut parent = self.tasks.remove(pi);
        parent.children.push(child_id);
        self.tasks.insert(pi, parent);
        let ghost mid = self@;
        proof {
            assert(mid.tasks =~= pre.tasks.update(
                pi as int,
                TaskV { children: pre.tasks[pi as int].children.push(child_id), ..pre.tasks[pi as int] },
            ));
        }
        let mut child = self.tasks.remove(ci);
        child.parents.push(parent_id);
        self.tasks.insert(ci, child);
        proof {
            let post = self@;
            let pii = pi as int;
            let cii = ci as int;
            assert(post.tasks =~= mid.tasks.update(
                cii,
                TaskV { parents: mid.tasks[cii].parents.push(parent_id), ..mid.tasks[cii] },
            ));
            assert(post.functions =~= pre.functions);
            assert forall|i: int| 0 <= i < pre.tasks.len() implies #[trigger] post.tasks[i]
                == dep_updated(pre.tasks[i], parent_id, child_id) by {
                if pre.tasks[i].id == parent_id {
                    lemma_task_index_unique(pre.tasks, i, parent_id);
                    lemma_task_index_unique(pre.tasks, pii, parent_id);
                }
                if pre.tasks[i].id == child_id {
                    lemma_task_index_unique(pre.tasks, i, child_id);
                    lemma_task_index_unique(pre.tasks, cii, child_id);
                }
                assert(pre.tasks[pii].id == parent_id);
                assert(pre.tasks[cii].id == child_id);
                assert(i == pii <==> pre.tasks[i].id == parent_id);
                assert(i == cii <==> pre.tasks[i].id == child_id);
            }
            assert(add_dep_post(pre, post, parent_id, child_id));
            lemma_add_dep_post_wf(pre, post, parent_id, child_id);
        }
        Some(())
    }

    /// Whether a live task carries the id.
    pub fn does_task_exist(&self, id: u64) -> (r: bool)
        ensures
            r == has_task_id(self@.tasks, id),
    {
        let n = self.tasks.len();
        let mut i: usize = 0;
        while i < n
            invariant
                0 <= i <= n,
                n == self.tasks@.len(),
                forall|k: int| 0 <= k < i ==> (#[trigger] self@.tasks[k]).id != id,
            decreases n - i,
        {
            if self.tasks[i].id == id {
                proof {
                    assert(self@.tasks[i as int].id == id);
                }
                return true;
            }
            i = i + 1;
        }
        false
    }

    /// Linear lookup by id: the live task with that id, or nothing.
    pub fn get_task(&self, id: u64) -> (r: Option<&Task>)
        requires
            self@.wf(),
        ensures
            match r {
                Some(t) => {
                    &&& has_task_id(self@.tasks, id)
                    &&& t@ == self@.tasks[task_index(self@.tasks, id)]
                    &&& t@.id == id
                },
                None => !has_task_id(self@.tasks, id),
            },
    {
        let n = self.tasks.len();
        let mut i: usize = 0;
        while i < n
            invariant
                0 <= i <= n,
                n == self.tasks@.len(),
                task_ids_increasing(self@.tasks),
                forall|k: int| 0 <= k < i ==> (#[trigger] self@.tasks[k]).id != id,
            decreases n - i,
        {
            if self.tasks[i].id == id {
                proof {
                    lemma_task_index_unique(self@.tasks, i as int, id);
                }
                return Some(&self.tasks[i]);
            }
            i = i + 1;
        }
        None
    }
}

impl Default for AppState {
    fn default() -> (r: AppState)
        ensures
            r@ == empty_state(),
            r@.wf(),
    {
        AppState::new()
    }
}

} // verus!
