//! The process tree under one root: a depth-first walk of parent links that
//! lists children before parents and visits each pid once.

use vstd::prelude::*;
use crate::inspector::{ProcessIdentity, ProcessTreeEntry};

verus! {

/// The identity a process-table row stands for.
pub open spec fn ident_of(e: ProcessTreeEntry) -> (i32, Seq<char>) {
    (e.pid, e.started@)
}

/// Row `k` is the last row with pid `pid`.
pub open spec fn is_last_row(rows: Seq<ProcessTreeEntry>, pid: i32, k: int) -> bool {
    0 <= k < rows.len() && rows[k].pid == pid && forall|j: int| k < j < rows.len() ==> #[trigger] rows[j].pid != pid
}

/// Element `k` of `r` stands for some row.
pub open spec fn from_some_row(rows: Seq<ProcessTreeEntry>, r: Seq<ProcessIdentity>, k: int) -> bool {
    exists|c: int| 0 <= c < rows.len() && #[trigger] ident_of(rows[c]) == r[k].view()
}

/// Element `k` of `r` stands for a row whose parent is listed after it.
pub open spec fn parent_listed_later(rows: Seq<ProcessTreeEntry>, r: Seq<ProcessIdentity>, k: int) -> bool {
    exists|c: int, k2: int|
        0 <= c < rows.len() && k < k2 < r.len() && #[trigger] ident_of(rows[c]) == r[k].view()
            && #[trigger] r[k2].view().0 == rows[c].parent_pid
}

/// Some element of `r` has pid `p`.
pub open spec fn lists_pid(r: Seq<ProcessIdentity>, p: i32) -> bool {
    exists|k: int| 0 <= k < r.len() && #[trigger] r[k].view().0 == p
}

/// What the walk from `root_pid` lists: nothing when no row has that pid;
/// otherwise the identity of the last such row comes last, pids are distinct,
/// every element stands for a row, every element but the last has its parent
/// listed after it, and every row whose parent is listed is listed too.
pub open spec fn is_process_tree(rows: Seq<ProcessTreeEntry>, root_pid: i32, r: Seq<ProcessIdentity>) -> bool {
    &&& (r.len() == 0 <==> forall|c: int| 0 <= c < rows.len() ==> #[trigger] rows[c].pid != root_pid)
    &&& r.len() > 0 ==> exists|k: int| is_last_row(rows, root_pid, k) && ident_of(rows[k]) == r.last().view()
    &&& forall|i: int, j: int| 0 <= i < j < r.len() ==> #[trigger] r[i].view().0 != #[trigger] r[j].view().0
    &&& forall|k: int| 0 <= k < r.len() ==> #[trigger] from_some_row(rows, r, k)
    &&& forall|k: int| 0 <= k < r.len() - 1 ==> #[trigger] parent_listed_later(rows, r, k)
    &&& forall|c: int| 0 <= c < rows.len() && #[trigger] lists_pid(r, rows[c].parent_pid) ==> lists_pid(r, rows[c].pid)
}

/// Number of rows whose pid is not in `seen`.
pub open spec fn unseen_count(rows: Seq<ProcessTreeEntry>, seen: Seq<i32>) -> nat
    decreases rows.len(),
{
    if rows.len() == 0 {
        0
    } else {
        unseen_count(rows.drop_last(), seen) + if seen.contains(rows.last().pid) { 0nat } else { 1nat }
    }
}

proof fn lemma_unseen_mono(rows: Seq<ProcessTreeEntry>, s1: Seq<i32>, s2: Seq<i32>)
    requires
        forall|p: i32| s1.contains(p) ==> s2.contains(p),
    ensures
        unseen_count(rows, s2) <= unseen_count(rows, s1),
    decreases rows.len(),
{
    if rows.len() > 0 {
        lemma_unseen_mono(rows.drop_last(), s1, s2);
    }
}

proof fn lemma_unseen_strict(rows: Seq<ProcessTreeEntry>, s1: Seq<i32>, s2: Seq<i32>, e: int)
    requires
        forall|p: i32| s1.contains(p) ==> s2.contains(p),
        0 <= e < rows.len(),
        !s1.contains(rows[e].pid),
        s2.contains(rows[e].pid),
    ensures
        unseen_count(rows, s2) < unseen_count(rows, s1),
    decreases rows.len(),
{
    if e == rows.len() - 1 {
        lemma_unseen_mono(rows.drop_last(), s1, s2);
    } else {
        assert(rows.drop_last()[e] == rows[e]);
        lemma_unseen_strict(rows.drop_last(), s1, s2, e);
    }
}

fn seen_contains(seen: &Vec<i32>, p: i32) -> (r: bool)
    ensures
        r == seen@.contains(p),
{
    let mut i: usize = 0;
    while i < seen.len()
        invariant
            0 <= i <= seen.len(),
            forall|k: int| 0 <= k < i ==> seen@[k] != p,
        decreases seen.len() - i,
    {
        if seen[i] == p {
            assert(seen@[i as int] == p);
            return true;
        }
        i = i + 1;
    }
    false
}

/// The pids of elements `from..` of `r`.
pub open spec fn appended_pid(r: Seq<ProcessIdentity>, from: int, p: i32) -> bool {
    exists|k: int| from <= k < r.len() && #[trigger] r[k].view().0 == p
}

/// Facts of one walk step, from seen set `s0` and list `r0` to `s1` and `r1`,
/// apart from the order of parents.
pub open spec fn walk_core(rows: Seq<ProcessTreeEntry>, s0: Seq<i32>, r0: Seq<ProcessIdentity>, s1: Seq<i32>,
    r1: Seq<ProcessIdentity>) -> bool {
    &&& r0.len() <= r1.len()
    &&& r1.subrange(0, r0.len() as int) == r0
    &&& forall|p: i32| s0.contains(p) ==> s1.contains(p)
    &&& forall|k: int| r0.len() <= k < r1.len() ==> s1.contains(#[trigger] r1[k].view().0) && !s0.contains(r1[k].view().0)
    &&& forall|p: i32| s1.contains(p) && !s0.contains(p) ==> appended_pid(r1, r0.len() as int, p)
    &&& forall|i: int, j: int| r0.len() <= i < j < r1.len() ==> #[trigger] r1[i].view().0 != #[trigger] r1[j].view().0
    &&& forall|c: int| 0 <= c < rows.len() && s1.contains(#[trigger] rows[c].parent_pid) && !s0.contains(rows[c].parent_pid)
        ==> s1.contains(rows[c].pid)
    &&& forall|k: int| r0.len() <= k < r1.len() ==> #[trigger] from_some_row(rows, r1, k)
}

/// One walk step, with every appended element but the last followed by its parent.
pub open spec fn walk_step(rows: Seq<ProcessTreeEntry>, s0: Seq<i32>, r0: Seq<ProcessIdentity>, s1: Seq<i32>,
    r1: Seq<ProcessIdentity>) -> bool {
    &&& walk_core(rows, s0, r0, s1, r1)
    &&& forall|k: int| r0.len() <= k < r1.len() - 1 ==> #[trigger] parent_listed_later(rows, r1, k)
}

proof fn lemma_core_trans(rows: Seq<ProcessTreeEntry>, s0: Seq<i32>, r0: Seq<ProcessIdentity>, s1: Seq<i32>,
    r1: Seq<ProcessIdentity>, s2: Seq<i32>, r2: Seq<ProcessIdentity>)
    requires
        walk_core(rows, s0, r0, s1, r1),
        walk_core(rows, s1, r1, s2, r2),
    ensures
        walk_core(rows, s0, r0, s2, r2),
{
    assert(r2.subrange(0, r0.len() as int) =~= r0) by {
        assert forall|k: int| 0 <= k < r0.len() implies r2[k] == r0[k] by {
            assert(r2.subrange(0, r1.len() as int)[k] == r1[k]);
            assert(r1.subrange(0, r0.len() as int)[k] == r0[k]);
        }
    }
    assert forall|k: int| r0.len() <= k < r2.len() implies s2.contains(#[trigger] r2[k].view().0) && !s0.contains(r2[k].view().0) by {
        if k < r1.len() {
            assert(r2.subrange(0, r1.len() as int)[k] == r1[k]);
            assert(s1.contains(r1[k].view().0));
        }
    }
    assert forall|p: i32| s2.contains(p) && !s0.contains(p) implies appended_pid(r2, r0.len() as int, p) by {
        if s1.contains(p) {
            let k = choose|k: int| r0.len() <= k < r1.len() && #[trigger] r1[k].view().0 == p;
            assert(r2.subrange(0, r1.len() as int)[k] == r1[k]);
            assert(r2[k].view().0 == p);
        } else {
            let k = choose|k: int| r1.len() <= k < r2.len() && #[trigger] r2[k].view().0 == p;
        }
    }
    assert forall|i: int, j: int| r0.len() <= i < j < r2.len() implies #[trigger] r2[i].view().0 != #[trigger] r2[j].view().0 by {
        if j < r1.len() {
            assert(r2.subrange(0, r1.len() as int)[i] == r1[i]);
            assert(r2.subrange(0, r1.len() as int)[j] == r1[j]);
        } else if i < r1.len() {
            assert(r2.subrange(0, r1.len() as int)[i] == r1[i]);
            assert(s1.contains(r1[i].view().0));
        }
    }
    assert forall|c: int| 0 <= c < rows.len() && s2.contains(#[trigger] rows[c].parent_pid) && !s0.contains(rows[c].parent_pid)
        implies s2.contains(rows[c].pid) by {
        if s1.contains(rows[c].parent_pid) {
            assert(s1.contains(rows[c].pid));
        }
    }
    assert forall|k: int| r0.len() <= k < r2.len() implies #[trigger] from_some_row(rows, r2, k) by {
        if k < r1.len() {
            assert(r2.subrange(0, r1.len() as int)[k] == r1[k]);
            assert(from_some_row(rows, r1, k));
            let c = choose|c: int| 0 <= c < rows.len() && #[trigger] ident_of(rows[c]) == r1[k].view();
            assert(ident_of(rows[c]) == r2[k].view());
        }
    }
}

/// Element `k` of `r` waits for its parent `pid`: it stands for a row whose parent is `pid`.
pub open spec fn waits_for(rows: Seq<ProcessTreeEntry>, r: Seq<ProcessIdentity>, k: int, pid: i32) -> bool {
    exists|c: int| 0 <= c < rows.len() && #[trigger] ident_of(rows[c]) == r[k].view() && rows[c].parent_pid == pid
}

proof fn lemma_later_stable(rows: Seq<ProcessTreeEntry>, r1: Seq<ProcessIdentity>, r2: Seq<ProcessIdentity>, k: int)
    requires
        r1.len() <= r2.len(),
        r2.subrange(0, r1.len() as int) == r1,
        0 <= k < r1.len(),
        parent_listed_later(rows, r1, k),
    ensures
        parent_listed_later(rows, r2, k),
{
    let (c, k2) = choose|c: int, k2: int| 0 <= c < rows.len() && k < k2 < r1.len()
        && #[trigger] ident_of(rows[c]) == r1[k].view() && #[trigger] r1[k2].view().0 == rows[c].parent_pid;
    assert(r2.subrange(0, r1.len() as int)[k] == r1[k]);
    assert(r2.subrange(0, r1.len() as int)[k2] == r1[k2]);
    assert(ident_of(rows[c]) == r2[k].view() && r2[k2].view().0 == rows[c].parent_pid);
}

proof fn lemma_waits_stable(rows: Seq<ProcessTreeEntry>, r1: Seq<ProcessIdentity>, r2: Seq<ProcessIdentity>, k: int, pid: i32)
    requires
        r1.len() <= r2.len(),
        r2.subrange(0, r1.len() as int) == r1,
        0 <= k < r1.len(),
        waits_for(rows, r1, k, pid),
    ensures
        waits_for(rows, r2, k, pid),
{
    assert(r2.subrange(0, r1.len() as int)[k] == r1[k]);
    let c = choose|c: int| 0 <= c < rows.len() && #[trigger] ident_of(rows[c]) == r1[k].view() && rows[c].parent_pid == pid;
    assert(ident_of(rows[c]) == r2[k].view());
}

fn visit(rows: &[ProcessTreeEntry], e: usize, seen: &mut Vec<i32>, result: &mut Vec<ProcessIdentity>, Ghost(budget): Ghost<nat>)
    requires
        e < rows.len(),
        budget == unseen_count(rows@, old(seen)@),
    ensures
        walk_step(rows@, old(seen)@, old(result)@, final(seen)@, final(result)@),
        old(seen)@.contains(rows@[e as int].pid) ==> final(result)@ == old(result)@ && final(seen)@ == old(seen)@,
        !old(seen)@.contains(rows@[e as int].pid) ==> final(result)@.len() > old(result)@.len()
            && final(result)@.last().view() == ident_of(rows@[e as int]),
    decreases budget,
{
    let ghost s0 = seen@;
    let ghost r0 = result@;
    let pid = rows[e].pid;
    if seen_contains(seen, pid) {
        assert(result@.subrange(0, r0.len() as int) =~= r0);
        return;
    }
    seen.push(pid);
    let ghost s_ins = seen@;
    assert(s_ins.contains(pid)) by {
        assert(s_ins[s0.len() as int] == pid);
    }
    assert forall|p: i32| s0.contains(p) implies s_ins.contains(p) by {
        let k = choose|k: int| 0 <= k < s0.len() && s0[k] == p;
        assert(s_ins[k] == p);
    }
    assert forall|p: i32| s_ins.contains(p) && p != pid implies s0.contains(p) by {
        let k = choose|k: int| 0 <= k < s_ins.len() && s_ins[k] == p;
        assert(s0[k] == p);
    }
    assert(result@.subrange(0, r0.len() as int) =~= r0);
    let mut c: usize = 0;
    while c < rows.len()
        invariant
            0 <= c <= rows.len(),
            e < rows.len(),
            budget == unseen_count(rows@, s0),
            pid == rows@[e as int].pid,
            !s0.contains(pid),
            s_ins.contains(pid),
            forall|p: i32| s0.contains(p) ==> s_ins.contains(p),
            forall|p: i32| s_ins.contains(p) && p != pid ==> s0.contains(p),
            walk_core(rows@, s_ins, r0, seen@, result@),
            forall|c2: int| 0 <= c2 < c && #[trigger] rows@[c2].parent_pid == pid ==> seen@.contains(rows@[c2].pid),
            forall|k: int| r0.len() <= k < result@.len() ==>
                #[trigger] parent_listed_later(rows@, result@, k) || waits_for(rows@, result@, k, pid),
        decreases rows.len() - c,
    {
        if rows[c].parent_pid == pid {
            let ghost s_before = seen@;
            let ghost r_before = result@;
            proof {
                assert forall|p: i32| s0.contains(p) implies s_before.contains(p) by {
                    assert(s_ins.contains(p));
                }
                assert(s_before.contains(pid));
                lemma_unseen_strict(rows@, s0, s_before, e as int);
            }
            visit(rows, c, seen, result, Ghost(unseen_count(rows@, s_before)));
            proof {
                let r_now = result@;
                lemma_core_trans(rows@, s_ins, r0, s_before, r_before, seen@, r_now);
                assert forall|k: int| r0.len() <= k < r_now.len() implies
                    #[trigger] parent_listed_later(rows@, r_now, k) || waits_for(rows@, r_now, k, pid) by {
                    if k < r_before.len() {
                        if parent_listed_later(rows@, r_before, k) {
                            lemma_later_stable(rows@, r_before, r_now, k);
                        } else {
                            lemma_waits_stable(rows@, r_before, r_now, k, pid);
                        }
                    } else if k == r_now.len() - 1 {
                        assert(ident_of(rows@[c as int]) == r_now[k].view());
                    }
                }
                if s_before.contains(rows@[c as int].pid) {
                    assert(seen@.contains(rows@[c as int].pid));
                } else {
                    assert(r_now[r_now.len() - 1].view().0 == rows@[c as int].pid);
                    assert(seen@.contains(r_now[r_now.len() - 1].view().0));
                }
                assert forall|c2: int| 0 <= c2 <= c && #[trigger] rows@[c2].parent_pid == pid implies seen@.contains(rows@[c2].pid) by {
                    if c2 < c {
                        assert(s_before.contains(rows@[c2].pid));
                    }
                }
            }
        }
        c = c + 1;
    }
    let ghost r_loop = result@;
    let ghost s_end = seen@;
    let ident = ProcessIdentity::from_parts(pid, rows[e].started.clone());
    result.push(ident);
    proof {
        let r1 = result@;
        let last = r1.len() - 1;
        assert(r1[last].view() == ident_of(rows@[e as int]));
        assert(r1.subrange(0, r_loop.len() as int) =~= r_loop);
        assert(r1.subrange(0, r0.len() as int) =~= r0) by {
            assert forall|k: int| 0 <= k < r0.len() implies r1[k] == r0[k] by {
                assert(r_loop.subrange(0, r0.len() as int)[k] == r0[k]);
            }
        }
        assert forall|k: int| r0.len() <= k < r1.len() implies s_end.contains(#[trigger] r1[k].view().0) && !s0.contains(r1[k].view().0) by {
            if k < r_loop.len() {
                assert(r1[k] == r_loop[k]);
                assert(s_end.contains(r_loop[k].view().0) && !s_ins.contains(r_loop[k].view().0));
            } else {
                assert(s_end.contains(pid));
            }
        }
        assert forall|p: i32| s_end.contains(p) && !s0.contains(p) implies appended_pid(r1, r0.len() as int, p) by {
            if p == pid {
                assert(r1[last].view().0 == p);
            } else {
                assert(!s_ins.contains(p));
                let k = choose|k: int| r0.len() <= k < r_loop.len() && #[trigger] r_loop[k].view().0 == p;
                assert(r1[k] == r_loop[k]);
            }
        }
        assert forall|i: int, j: int| r0.len() <= i < j < r1.len() implies #[trigger] r1[i].view().0 != #[trigger] r1[j].view().0 by {
            assert(r1[i] == r_loop[i]);
            if j < r_loop.len() {
                assert(r1[j] == r_loop[j]);
            } else {
                assert(!s_ins.contains(r_loop[i].view().0));
            }
        }
        assert forall|c2: int| 0 <= c2 < rows.len() && s_end.contains(#[trigger] rows@[c2].parent_pid) && !s0.contains(rows@[c2].parent_pid)
            implies s_end.contains(rows@[c2].pid) by {
            if rows@[c2].parent_pid != pid {
                assert(!s_ins.contains(rows@[c2].parent_pid));
            }
        }
        assert forall|k: int| r0.len() <= k < r1.len() implies #[trigger] from_some_row(rows@, r1, k) by {
            if k < r_loop.len() {
                assert(r1[k] == r_loop[k]);
                assert(from_some_row(rows@, r_loop, k));
                let c3 = choose|c3: int| 0 <= c3 < rows.len() && #[trigger] ident_of(rows@[c3]) == r_loop[k].view();
                assert(ident_of(rows@[c3]) == r1[k].view());
            } else {
                assert(ident_of(rows@[e as int]) == r1[k].view());
            }
        }
        assert forall|k: int| r0.len() <= k < r1.len() - 1 implies #[trigger] parent_listed_later(rows@, r1, k) by {
            if parent_listed_later(rows@, r_loop, k) {
                lemma_later_stable(rows@, r_loop, r1, k);
            } else {
                assert(waits_for(rows@, r_loop, k, pid));
                let c3 = choose|c3: int| 0 <= c3 < rows.len() && #[trigger] ident_of(rows@[c3]) == r_loop[k].view() && rows@[c3].parent_pid == pid;
                assert(r1[k] == r_loop[k]);
                assert(ident_of(rows@[c3]) == r1[k].view() && r1[last].view().0 == rows@[c3].parent_pid);
            }
        }
    }
}

/// `root_pid` and its current transitive descendants, children first: a
/// depth-first walk from the last row with that pid, each pid visited once,
/// so cycles end at the first repeat.
pub fn process_tree(rows: &[ProcessTreeEntry], root_pid: i32) -> (r: Vec<ProcessIdentity>)
    ensures
        is_process_tree(rows@, root_pid, r@),
{
    let mut root: usize = rows.len();
    let mut i: usize = rows.len();
    while i > 0
        invariant
            0 <= i <= rows.len(),
            root <= rows.len(),
            root == rows.len() ==> forall|j: int| i <= j < rows.len() ==> #[trigger] rows@[j].pid != root_pid,
            root < rows.len() ==> is_last_row(rows@, root_pid, root as int),
        decreases i,
    {
        if root == rows.len() && rows[i - 1].pid == root_pid {
            root = i - 1;
        }
        i = i - 1;
    }
    let mut result: Vec<ProcessIdentity> = Vec::new();
    if root == rows.len() {
        return result;
    }
    let mut seen: Vec<i32> = Vec::new();
    let ghost budget = unseen_count(rows@, seen@);
    visit(rows, root, &mut seen, &mut result, Ghost(budget));
    proof {
        let r = result@;
        let s = seen@;
        assert(!Seq::<i32>::empty().contains(root_pid));
        assert forall|k: int| 0 <= k < r.len() implies #[trigger] from_some_row(rows@, r, k) by {}
        assert forall|i2: int, j: int| 0 <= i2 < j < r.len() implies #[trigger] r[i2].view().0 != #[trigger] r[j].view().0 by {}
        assert forall|k: int| 0 <= k < r.len() - 1 implies #[trigger] parent_listed_later(rows@, r, k) by {}
        assert forall|p: i32| lists_pid(r, p) <==> s.contains(p) by {
            if lists_pid(r, p) {
                let k = choose|k: int| 0 <= k < r.len() && #[trigger] r[k].view().0 == p;
                assert(s.contains(r[k].view().0));
            }
            if s.contains(p) {
                assert(appended_pid(r, 0, p));
                let k = choose|k: int| 0 <= k < r.len() && #[trigger] r[k].view().0 == p;
            }
        }
        assert forall|c: int| 0 <= c < rows.len() && #[trigger] lists_pid(r, rows@[c].parent_pid) implies lists_pid(r, rows@[c].pid) by {
            assert(s.contains(rows@[c].parent_pid));
            assert(s.contains(rows@[c].pid));
        }
        assert(rows@[root as int].pid == root_pid);
    }
    result
}

} // verus!
