//! Enumeration of the dependency edges, and the laws the edge bookkeeping
//! obeys across operations.

use vstd::prelude::*;

use crate::state::add_dep_post;
use crate::state::dep_updated;
use crate::state::has_task_id;
use crate::state::task_index;
use crate::state::AppState;
use crate::state::StateV;
use crate::task::TaskV;

verus! {

/// The edges contributed by one parent: one pair `(pid, c)` for every child
/// link `c` that still resolves to a live task, in link order.  Links whose
/// task was deleted are silently skipped.
pub open spec fn child_edges(pid: u64, children: Seq<u64>, tasks: Seq<TaskV>) -> Seq<(u64, u64)>
    decreases children.len(),
{
    if children.len() == 0 {
        Seq::empty()
    } else {
        let rest = child_edges(pid, children.drop_last(), tasks);
        if has_task_id(tasks, children.last()) {
            rest.push((pid, children.last()))
        } else {
            rest
        }
    }
}

/// The edges contributed by the first `n` live tasks, in storage order.
pub open spec fn edges_upto(tasks: Seq<TaskV>, n: int) -> Seq<(u64, u64)>
    decreases n,
{
    if n <= 0 {
        Seq::empty()
    } else {
        edges_upto(tasks, n - 1) + child_edges(tasks[n - 1].id, tasks[n - 1].children, tasks)
    }
}

/// Every dependency edge among the live tasks, in storage order.
pub open spec fn edges(tasks: Seq<TaskV>) -> Seq<(u64, u64)> {
    edges_upto(tasks, tasks.len() as int)
}

/// How often the pair `(p, c)` occurs in a list of edges.
pub open spec fn edge_occ(es: Seq<(u64, u64)>, p: u64, c: u64) -> nat
    decreases es.len(),
{
    if es.len() == 0 {
        0
    } else {
        edge_occ(es.drop_last(), p, c) + if es.last() == (p, c) {
            1nat
        } else {
            0nat
        }
    }
}

impl AppState {
    /// Walks every live task and every child link that still resolves, and
    /// returns one `(parent id, child id)` pair per resolving link.
    pub fn get_dependencies(&self) -> (r: Vec<(u64, u64)>)
        ensures
            r@ == edges(self@.tasks),
    {
        let mut deps: Vec<(u64, u64)> = Vec::new();
        let n = self.tasks.len();
        let mut i: usize = 0;
        while i < n
            invariant
                0 <= i <= n,
                n == self.tasks@.len(),
                deps@ == edges_upto(self@.tasks, i as int),
            decreases n - i,
        {
            let parent_id = self.tasks[i].get_id();
            let m = self.tasks[i].children.len();
            let mut j: usize = 0;
            while j < m
                invariant
                    0 <= j <= m,
                    0 <= i < n,
                    n == self.tasks@.len(),
                    m == self@.tasks[i as int].children.len(),
                    parent_id == self@.tasks[i as int].id,
                    deps@ == edges_upto(self@.tasks, i as int) + child_edges(
                        parent_id,
                        self@.tasks[i as int].children.take(j as int),
                        self@.tasks,
                    ),
                decreases m - j,
            {
                let cid = self.tasks[i].children[j];
                if self.does_task_exist(cid) {
                    deps.push((parent_id, cid));
                }
                proof {
                    let ch = self@.tasks[i as int].children;
                    assert(ch.take(j + 1).drop_last() =~= ch.take(j as int));
                    assert(ch.take(j + 1).last() == ch[j as int]);
                    assert(deps@ =~= edges_upto(self@.tasks, i as int) + child_edges(
                        parent_id,
                        ch.take(j + 1),
                        self@.tasks,
                    ));
                }
                j = j + 1;
            }
            proof {
                let ch = self@.tasks[i as int].children;
                assert(ch.take(m as int) =~= ch);
                assert(deps@ =~= edges_upto(self@.tasks, i as int + 1));
            }
            i = i + 1;
        }
        deps
    }
}

proof fn lemma_child_edges_endpoints(pid: u64, children: Seq<u64>, tasks: Seq<TaskV>)
    ensures
        forall|k: int|
            0 <= k < child_edges(pid, children, tasks).len() ==> (#[trigger] child_edges(
                pid,
                children,
                tasks,
            )[k]).0 == pid && has_task_id(tasks, child_edges(pid, children, tasks)[k].1),
    decreases children.len(),
{
    if children.len() > 0 {
        lemma_child_edges_endpoints(pid, children.drop_last(), tasks);
        let rest = child_edges(pid, children.drop_last(), tasks);
        let ce = child_edges(pid, children, tasks);
        assert forall|k: int| 0 <= k < ce.len() implies (#[trigger] ce[k]).0 == pid && has_task_id(
            tasks,
            ce[k].1,
        ) by {
            if k < rest.len() {
                assert(ce[k] == rest[k]);
            } else {
                assert(has_task_id(tasks, children.last()));
                assert(ce[k] == (pid, children.last()));
            }
        }
    }
}

proof fn lemma_edges_upto_endpoints(tasks: Seq<TaskV>, n: int)
    requires
        0 <= n <= tasks.len(),
    ensures
        forall|k: int|
            0 <= k < edges_upto(tasks, n).len() ==> has_task_id(
                tasks,
                (#[trigger] edges_upto(tasks, n)[k]).0,
            ) && has_task_id(tasks, edges_upto(tasks, n)[k].1),
    decreases n,
{
    if n > 0 {
        lemma_edges_upto_endpoints(tasks, n - 1);
        lemma_child_edges_endpoints(tasks[n - 1].id, tasks[n - 1].children, tasks);
        assert(has_task_id(tasks, tasks[n - 1].id));
        let a = edges_upto(tasks, n - 1);
        let b = child_edges(tasks[n - 1].id, tasks[n - 1].children, tasks);
        let e = edges_upto(tasks, n);
        assert(e == a + b);
        assert forall|k: int| 0 <= k < e.len() implies has_task_id(tasks, (#[trigger] e[k]).0)
            && has_task_id(tasks, e[k].1) by {
            if k < a.len() {
                assert(e[k] == a[k]);
            } else {
                assert(e[k] == b[k - a.len()]);
            }
        }
    }
}

/// Both endpoints of every enumerated edge are ids of live tasks.
pub proof fn lemma_edges_endpoints_live(tasks: Seq<TaskV>)
    ensures
        forall|k: int|
            0 <= k < edges(tasks).len() ==> has_task_id(tasks, (#[trigger] edges(tasks)[k]).0)
                && has_task_id(tasks, edges(tasks)[k].1),
{
    lemma_edges_upto_endpoints(tasks, tasks.len() as int);
}

/// An id with no live task — in particular the id of a task just deleted —
/// appears in no enumerated edge, on either side: the parent-side entry is
/// gone with the task, and child-side links to it no longer resolve.
pub proof fn lemma_absent_id_in_no_edge(tasks: Seq<TaskV>, id: u64)
    requires
        !has_task_id(tasks, id),
    ensures
        forall|k: int|
            0 <= k < edges(tasks).len() ==> (#[trigger] edges(tasks)[k]).0 != id && edges(
                tasks,
            )[k].1 != id,
{
    lemma_edges_endpoints_live(tasks);
}

proof fn lemma_edge_occ_concat(a: Seq<(u64, u64)>, b: Seq<(u64, u64)>, p: u64, c: u64)
    ensures
        edge_occ(a + b, p, c) == edge_occ(a, p, c) + edge_occ(b, p, c),
    decreases b.len(),
{
    if b.len() == 0 {
        assert(a + b =~= a);
    } else {
        lemma_edge_occ_concat(a, b.drop_last(), p, c);
        assert((a + b).drop_last() =~= a + b.drop_last());
        assert((a + b).last() == b.last());
    }
}

proof fn lemma_child_edges_same_liveness(
    pid: u64,
    children: Seq<u64>,
    tasks1: Seq<TaskV>,
    tasks2: Seq<TaskV>,
)
    requires
        forall|x: u64| has_task_id(tasks1, x) == has_task_id(tasks2, x),
    ensures
        child_edges(pid, children, tasks1) == child_edges(pid, children, tasks2),
    decreases children.len(),
{
    if children.len() > 0 {
        lemma_child_edges_same_liveness(pid, children.drop_last(), tasks1, tasks2);
    }
}

proof fn lemma_child_edges_push_live(pid: u64, children: Seq<u64>, c: u64, tasks: Seq<TaskV>)
    requires
        has_task_id(tasks, c),
    ensures
        child_edges(pid, children.push(c), tasks) == child_edges(pid, children, tasks).push(
            (pid, c),
        ),
{
    assert(children.push(c).drop_last() =~= children);
}

proof fn lemma_same_ids_same_liveness(pre: Seq<TaskV>, post: Seq<TaskV>)
    requires
        pre.len() == post.len(),
        forall|i: int| 0 <= i < pre.len() ==> (#[trigger] post[i]).id == pre[i].id,
    ensures
        forall|x: u64| has_task_id(post, x) == has_task_id(pre, x),
{
    assert forall|x: u64| has_task_id(post, x) == has_task_id(pre, x) by {
        if has_task_id(pre, x) {
            let i = task_index(pre, x);
            assert(post[i].id == x);
            assert(has_task_id(post, x));
        }
        if has_task_id(post, x) {
            let i = task_index(post, x);
            assert(pre[i].id == x);
            assert(has_task_id(pre, x));
        }
    }
}

proof fn lemma_add_dep_edge_occ_upto(
    pre: StateV,
    post: StateV,
    p: u64,
    c: u64,
    n: int,
    p2: u64,
    c2: u64,
)
    requires
        pre.wf(),
        has_task_id(pre.tasks, p),
        has_task_id(pre.tasks, c),
        add_dep_post(pre, post, p, c),
        0 <= n <= pre.tasks.len(),
    ensures
        edge_occ(edges_upto(post.tasks, n), p2, c2) == edge_occ(edges_upto(pre.tasks, n), p2, c2)
            + if task_index(pre.tasks, p) < n && p2 == p && c2 == c {
            1nat
        } else {
            0nat
        },
    decreases n,
{
    let pii = task_index(pre.tasks, p);
    assert(0 <= pii < pre.tasks.len() && pre.tasks[pii].id == p);
    assert forall|i: int| 0 <= i < pre.tasks.len() implies (#[trigger] post.tasks[i]).id
        == pre.tasks[i].id by {
        assert(post.tasks[i] == dep_updated(pre.tasks[i], p, c));
    }
    lemma_same_ids_same_liveness(pre.tasks, post.tasks);
    if n > 0 {
        lemma_add_dep_edge_occ_upto(pre, post, p, c, n - 1, p2, c2);
        let t = pre.tasks[n - 1];
        assert(post.tasks[n - 1] == dep_updated(t, p, c));
        let ce_pre = child_edges(t.id, t.children, pre.tasks);
        let ce_post = child_edges(post.tasks[n - 1].id, post.tasks[n - 1].children, post.tasks);
        lemma_edge_occ_concat(edges_upto(pre.tasks, n - 1), ce_pre, p2, c2);
        lemma_edge_occ_concat(edges_upto(post.tasks, n - 1), ce_post, p2, c2);
        if t.id == p {
            crate::state::lemma_task_index_unique(pre.tasks, n - 1, p);
            assert(n - 1 == pii);
            lemma_child_edges_same_liveness(t.id, t.children.push(c), pre.tasks, post.tasks);
            assert(has_task_id(pre.tasks, c));
            lemma_child_edges_push_live(t.id, t.children, c, pre.tasks);
            assert(ce_post == ce_pre.push((p, c)));
            assert(ce_post.drop_last() =~= ce_pre);
            assert(edge_occ(ce_post, p2, c2) == edge_occ(ce_pre, p2, c2) + if p2 == p && c2 == c {
                1nat
            } else {
                0nat
            });
        } else {
            assert(n - 1 != pii);
            lemma_child_edges_same_liveness(t.id, t.children, pre.tasks, post.tasks);
            assert(ce_post == ce_pre);
        }
    }
}

/// Recording the edge `(p, c)` adds exactly one occurrence of the pair
/// `(p, c)` to the enumerated dependencies and leaves the count of every
/// other pair unchanged.  Recording the same pair twice therefore yields two
/// occurrences: duplicates are kept by design.
pub proof fn lemma_add_dependency_adds_one_edge(pre: StateV, post: StateV, p: u64, c: u64)
    requires
        pre.wf(),
        has_task_id(pre.tasks, p),
        has_task_id(pre.tasks, c),
        add_dep_post(pre, post, p, c),
    ensures
        edge_occ(edges(post.tasks), p, c) == edge_occ(edges(pre.tasks), p, c) + 1,
        forall|p2: u64, c2: u64|
            !(p2 == p && c2 == c) ==> edge_occ(edges(post.tasks), p2, c2) == edge_occ(
                edges(pre.tasks),
                p2,
                c2,
            ),
{
    let n = pre.tasks.len() as int;
    assert(post.tasks.len() == n);
    assert(0 <= task_index(pre.tasks, p) < n);
    lemma_add_dep_edge_occ_upto(pre, post, p, c, n, p, c);
    assert forall|p2: u64, c2: u64| !(p2 == p && c2 == c) implies edge_occ(
        edges(post.tasks),
        p2,
        c2,
    ) == edge_occ(edges(pre.tasks), p2, c2) by {
        lemma_add_dep_edge_occ_upto(pre, post, p, c, n, p2, c2);
    }
}

} // verus!
