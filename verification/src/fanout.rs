//! The per-directory task fan-out strategy.
//!
//! For a directory, one pass over its entries sums the direct file
//! bytes at once; then every subdirectory gets a task of its own that
//! repeats the same logic, and the directory's result is the file-byte
//! sum plus the sum of all its subdirectory tasks' results, combined in
//! any completion order.  A task here is a heap-allocated frame, not a
//! native call-stack frame, so depth is bounded by memory, not by stack
//! size.  The strategy keeps one frame alive per directory on the
//! current chain plus its not-yet-joined siblings — it deliberately
//! places no bound on how many tasks may be outstanding at once; that
//! tradeoff (simplicity over a resource ceiling) is inherited from the
//! strategy's design, not silently repaired here.
//!
//! A task's failure fails its parent, first-fails-wins; sibling results
//! are then discarded.

use vstd::prelude::*;

use crate::model::ErrKind;
use crate::model::FsTree;
use crate::model::forest_count;
use crate::model::forest_has_kind;
use crate::model::forest_ok;
use crate::model::forest_total;
use crate::model::lemma_forest_has_kind_not_ok;
use crate::model::lemma_forest_remove;
use crate::model::lemma_forest_unfold_front;
use crate::model::tree_has_kind;
use crate::model::tree_ok;
use crate::model::tree_total;

verus! {

/// The byte length a sibling contributes directly: its length if it is
/// a regular file, nothing otherwise.
pub open spec fn file_size_of(t: FsTree) -> nat {
    match t {
        FsTree::File { size } => size as nat,
        _ => 0,
    }
}

/// The bytes contributed by the direct regular files of a sibling list.
pub open spec fn direct_files(s: Seq<FsTree>) -> nat
    decreases s,
{
    if s.len() == 0 {
        0
    } else {
        direct_files(s.drop_last()) + file_size_of(s.last())
    }
}

/// The contribution a sibling hands to a spawned subdirectory task: its
/// whole subtree total if it resolves as a directory, nothing otherwise.
pub open spec fn sub_total(t: FsTree) -> nat {
    match t {
        FsTree::Dir { .. } => tree_total(t),
        _ => 0,
    }
}

/// The bytes contributed by the subdirectories of a sibling list.
pub open spec fn subs_total(s: Seq<FsTree>) -> nat
    decreases s,
{
    if s.len() == 0 {
        0
    } else {
        subs_total(s.drop_last()) + sub_total(s.last())
    }
}

/// Whether some sibling's own metadata lookup fails, which the
/// enumeration pass reports before any task is spawned.
pub open spec fn has_direct_unreadable(s: Seq<FsTree>) -> bool
    decreases s,
{
    if s.len() == 0 {
        false
    } else {
        has_direct_unreadable(s.drop_last()) || s.last() is Unreadable
    }
}

/// A sibling list's total is exactly its direct file bytes plus its
/// subdirectory totals: symbolic links, other node kinds and failing
/// nodes contribute nothing.
pub proof fn lemma_forest_split(s: Seq<FsTree>)
    ensures
        forest_total(s) == direct_files(s) + subs_total(s),
    decreases s,
{
    if s.len() > 0 {
        lemma_forest_split(s.drop_last());
        assert(tree_total(s.last()) == file_size_of(s.last()) + sub_total(s.last())) by {
            match s.last() {
                FsTree::File { .. } => {},
                FsTree::Dir { .. } => {},
                FsTree::Symlink => {},
                FsTree::Other => {},
                FsTree::Unreadable { .. } => {},
                FsTree::Unlistable { .. } => {},
            }
        }
    }
}

/// Extending a scanned prefix by one sibling extends the pass's
/// measures by that sibling's direct contribution.
proof fn lemma_scan_take_step(s: Seq<FsTree>, i: int)
    requires
        0 <= i < s.len(),
    ensures
        direct_files(s.take(i + 1)) == direct_files(s.take(i)) + file_size_of(s[i]),
        has_direct_unreadable(s.take(i + 1)) == (has_direct_unreadable(s.take(i)) || s[i]
            is Unreadable),
{
    assert(s.take(i + 1).drop_last() =~= s.take(i));
    assert(s.take(i + 1).last() == s[i]);
}

/// A prefix never holds more direct file bytes than the whole list.
proof fn lemma_direct_files_take_le(s: Seq<FsTree>, i: int)
    requires
        0 <= i <= s.len(),
    ensures
        direct_files(s.take(i)) <= direct_files(s),
    decreases s.len(),
{
    if i == s.len() {
        assert(s.take(i) =~= s);
    } else {
        assert(s.take(i) =~= s.drop_last().take(i));
        lemma_direct_files_take_le(s.drop_last(), i);
    }
}

/// A sibling whose metadata lookup fails makes the whole pass report it.
proof fn lemma_direct_member(s: Seq<FsTree>, i: int)
    requires
        0 <= i < s.len(),
        s[i] is Unreadable,
    ensures
        has_direct_unreadable(s),
    decreases s.len(),
{
    if i < s.len() - 1 {
        assert(s.drop_last()[i] == s[i]);
        lemma_direct_member(s.drop_last(), i);
    }
}

/// The subdirectory bytes of a sibling list can be unfolded at its
/// front.
proof fn lemma_subs_unfold_front(s: Seq<FsTree>)
    requires
        s.len() > 0,
    ensures
        subs_total(s) == sub_total(s[0]) + subs_total(s.drop_first()),
    decreases s.len(),
{
    if s.len() == 1 {
        assert(s.drop_first() =~= Seq::<FsTree>::empty());
        assert(s.drop_last() =~= Seq::<FsTree>::empty());
    } else {
        lemma_subs_unfold_front(s.drop_last());
        assert(s.drop_last()[0] == s[0]);
        assert(s.drop_first().drop_last() =~= s.drop_last().drop_first());
        assert(s.drop_first().last() == s.last());
    }
}

/// One spawned, not yet joined task: the entries of the directory it
/// owns, how many of them it has already examined, and the partial sum
/// it has gathered (its own file bytes plus every joined child task's
/// result).
struct Task<'a> {
    entries: &'a Vec<FsTree>,
    next: usize,
    acc: u64,
}

impl<'a> Clone for Task<'a> {
    fn clone(&self) -> (r: Self)
        ensures
            r == *self,
    {
        Task { entries: self.entries, next: self.next, acc: self.acc }
    }
}

impl<'a> Copy for Task<'a> {

}

/// The siblings a task has yet to examine.
spec fn task_rest(t: Task<'_>) -> Seq<FsTree> {
    t.entries@.skip(t.next as int)
}

/// A task points inside its entry list, and its enumeration pass has
/// already ruled out siblings whose own metadata lookup fails.
spec fn task_wf(t: Task<'_>) -> bool {
    t.next <= t.entries@.len() && !has_direct_unreadable(t.entries@)
}

/// What a task still stands for: its partial sum plus the totals of the
/// subdirectory tasks it has yet to spawn.
spec fn task_term(t: Task<'_>) -> nat {
    t.acc as nat + subs_total(task_rest(t))
}

/// The value all outstanding tasks stand for together.
spec fn tasks_value(q: Seq<Task<'_>>) -> nat
    decreases q,
{
    if q.len() == 0 {
        0
    } else {
        tasks_value(q.drop_last()) + task_term(q.last())
    }
}

/// Whether everything the outstanding tasks have yet to examine is free
/// of failing nodes.
spec fn tasks_ok(q: Seq<Task<'_>>) -> bool
    decreases q,
{
    if q.len() == 0 {
        true
    } else {
        tasks_ok(q.drop_last()) && forest_ok(task_rest(q.last()))
    }
}

/// Whether something the outstanding tasks have yet to examine fails
/// with the kind `k`.
spec fn tasks_has_kind(q: Seq<Task<'_>>, k: ErrKind) -> bool
    decreases q,
{
    if q.len() == 0 {
        false
    } else {
        tasks_has_kind(q.drop_last(), k) || forest_has_kind(task_rest(q.last()), k)
    }
}

/// Number of nodes the outstanding tasks have yet to examine.
spec fn tasks_count(q: Seq<Task<'_>>) -> nat
    decreases q,
{
    if q.len() == 0 {
        0
    } else {
        tasks_count(q.drop_last()) + forest_count(task_rest(q.last()))
    }
}

/// Spawning one task adds exactly what it stands for to each measure.
proof fn lemma_tasks_push<'a>(q: Seq<Task<'a>>, t: Task<'a>)
    ensures
        tasks_value(q.push(t)) == tasks_value(q) + task_term(t),
        tasks_ok(q.push(t)) == (tasks_ok(q) && forest_ok(task_rest(t))),
        forall|k: ErrKind|
            tasks_has_kind(q.push(t), k) == (tasks_has_kind(q, k) || forest_has_kind(
                task_rest(t),
                k,
            )),
        tasks_count(q.push(t)) == tasks_count(q) + forest_count(task_rest(t)),
{
    assert(q.push(t).drop_last() =~= q);
    assert(q.push(t).last() == t);
}

/// One enumeration pass over a directory's entries: sums the direct
/// file bytes immediately and reports the failure of any entry whose
/// own metadata lookup fails, before any subdirectory task is spawned.
fn scan_entries(entries: &Vec<FsTree>) -> (r: Result<u64, ErrKind>)
    requires
        direct_files(entries@) <= u64::MAX,
    ensures
        r is Ok <==> !has_direct_unreadable(entries@),
        r is Ok ==> r->Ok_0 == direct_files(entries@),
        r is Err ==> forest_has_kind(entries@, r->Err_0),
{
    let mut sum: u64 = 0;
    proof {
        assert(entries@.take(0) =~= Seq::<FsTree>::empty());
    }
    let mut i: usize = 0;
    while i < entries.len()
        invariant
            i <= entries.len(),
            direct_files(entries@) <= u64::MAX,
            sum == direct_files(entries@.take(i as int)),
            !has_direct_unreadable(entries@.take(i as int)),
        decreases entries.len() - i,
    {
        proof {
            lemma_scan_take_step(entries@, i as int);
            lemma_direct_files_take_le(entries@, i as int + 1);
        }
        match &entries[i] {
            FsTree::File { size } => {
                sum = sum + *size;
            },
            FsTree::Unreadable { err } => {
                proof {
                    lemma_direct_member(entries@, i as int);
                    lemma_forest_remove(entries@, i as int);
                }
                return Err(*err);
            },
            _ => {},
        }
        i = i + 1;
    }
    proof {
        assert(entries@.take(entries@.len() as int) =~= entries@);
    }
    Ok(sum)
}

/// Computes the total byte size of all regular files under `root` by
/// fanning out one task per subdirectory.
///
/// The traversal succeeds exactly when no node of the tree fails, and
/// then returns the tree's total byte size; otherwise it aborts with a
/// failure kind that some node of the tree actually reports, and the
/// results of the remaining tasks are discarded.
pub fn calc_space_usage_fanout(root: &FsTree) -> (r: Result<u64, ErrKind>)
    requires
        tree_total(*root) <= u64::MAX,
    ensures
        r is Ok <==> tree_ok(*root),
        r is Ok ==> r->Ok_0 == tree_total(*root),
        r is Err ==> tree_has_kind(*root, r->Err_0),
{
    match root {
        FsTree::File { size: len } => Ok(*len),
        FsTree::Symlink => Ok(0),
        FsTree::Other => Ok(0),
        FsTree::Unreadable { err } => Err(*err),
        FsTree::Unlistable { err } => Err(*err),
        FsTree::Dir { entries } => {
            proof {
                lemma_forest_split(entries@);
            }
            let fsum = match scan_entries(entries) {
                Ok(v) => v,
                Err(e) => {
                    proof {
                        lemma_forest_has_kind_not_ok(entries@, e);
                    }
                    return Err(e);
                },
            };
            let t0 = Task { entries, next: 0, acc: fsum };
            proof {
                lemma_tasks_push(Seq::<Task>::empty(), t0);
                assert(task_rest(t0) =~= entries@);
            }
            let mut tasks: Vec<Task> = Vec::new();
            tasks.push(t0);
            proof {
                assert forall|k: ErrKind|
                    tasks_has_kind(tasks@, k) implies tree_has_kind(*root, k) by {
                    assert(tasks_has_kind(Seq::<Task>::empty().push(t0), k) == (tasks_has_kind(
                        Seq::<Task>::empty(),
                        k,
                    ) || forest_has_kind(task_rest(t0), k)));
                }
            }
            while tasks.len() > 0
                invariant
                    tree_total(*root) <= u64::MAX,
                    tasks@.len() > 0,
                    forall|j: int| 0 <= j < tasks@.len() ==> #[trigger] task_wf(tasks@[j]),
                    tasks_value(tasks@) == tree_total(*root),
                    tasks_ok(tasks@) <==> tree_ok(*root),
                    forall|k: ErrKind| tasks_has_kind(tasks@, k) ==> tree_has_kind(*root, k),
                decreases tasks_count(tasks@), tasks@.len(),
            {
                let ghost qprev = tasks@;
                let top = tasks.pop().unwrap();
                proof {
                    assert(tasks@ =~= qprev.drop_last());
                    assert(top == qprev.last());
                    assert(task_wf(qprev[qprev.len() - 1]));
                    assert forall|k: ErrKind|
                        tasks_has_kind(tasks@, k) || forest_has_kind(task_rest(top), k)
                            implies tree_has_kind(*root, k) by {
                        assert(tasks_has_kind(qprev, k) == (tasks_has_kind(tasks@, k)
                            || forest_has_kind(task_rest(top), k)));
                    }
                }
                if top.next < top.entries.len() {
                    let child: &FsTree = &top.entries[top.next];
                    let again = Task { entries: top.entries, next: top.next + 1, acc: top.acc };
                    let ghost r = task_rest(top);
                    proof {
                        assert(r.len() > 0);
                        lemma_forest_unfold_front(r);
                        lemma_subs_unfold_front(r);
                        assert(r[0] == top.entries@[top.next as int]);
                        assert(r.drop_first() =~= task_rest(again));
                        lemma_tasks_push(tasks@, again);
                        assert(tasks_value(qprev) == tasks_value(tasks@) + task_term(top));
                        assert(tasks_ok(qprev) == (tasks_ok(tasks@) && forest_ok(r)));
                        assert(tasks_count(qprev) == tasks_count(tasks@) + forest_count(r));
                    }
                    let ghost base = tasks@;
                    tasks.push(again);
                    proof {
                        assert forall|k: ErrKind|
                            tasks_has_kind(tasks@, k) || tree_has_kind(*child, k)
                                implies tree_has_kind(*root, k) by {
                            assert(tasks_has_kind(base.push(again), k) == (tasks_has_kind(base, k)
                                || forest_has_kind(task_rest(again), k)));
                            assert(forest_has_kind(r, k) == (tree_has_kind(r[0], k)
                                || forest_has_kind(r.drop_first(), k)));
                        }
                    }
                    match child {
                        FsTree::File { .. } => {},
                        FsTree::Symlink => {},
                        FsTree::Other => {},
                        FsTree::Unreadable { err } => {
                            proof {
                                lemma_direct_member(top.entries@, top.next as int);
                            }
                            return Err(*err);
                        },
                        FsTree::Unlistable { err } => {
                            return Err(*err);
                        },
                        FsTree::Dir { entries: centries } => {
                            proof {
                                lemma_forest_split(centries@);
                                assert(tasks_value(qprev) == tasks_value(base) + task_term(top));
                                assert(sub_total(*child) == forest_total(centries@));
                            }
                            match scan_entries(centries) {
                                Err(e) => {
                                    proof {
                                        lemma_forest_has_kind_not_ok(centries@, e);
                                    }
                                    return Err(e);
                                },
                                Ok(cf) => {
                                    let tc = Task { entries: centries, next: 0, acc: cf };
                                    let ghost mid = tasks@;
                                    proof {
                                        lemma_tasks_push(tasks@, tc);
                                        assert(task_rest(tc) =~= centries@);
                                    }
                                    tasks.push(tc);
                                    proof {
                                        assert forall|k: ErrKind|
                                            tasks_has_kind(tasks@, k) implies tree_has_kind(
                                            *root,
                                            k,
                                        ) by {
                                            assert(tasks_has_kind(mid.push(tc), k)
                                                == (tasks_has_kind(mid, k) || forest_has_kind(
                                                task_rest(tc),
                                                k,
                                            )));
                                            assert(forest_has_kind(centries@, k) == tree_has_kind(
                                                *child,
                                                k,
                                            ));
                                        }
                                    }
                                },
                            }
                        },
                    }
                } else {
                    proof {
                        assert(task_rest(top) =~= Seq::<FsTree>::empty());
                    }
                    if tasks.len() == 0 {
                        proof {
                            assert(tasks@ =~= Seq::<Task>::empty());
                            assert(tasks_value(qprev) == tasks_value(tasks@) + task_term(top));
                            assert(tasks_ok(qprev) == (tasks_ok(tasks@) && forest_ok(
                                task_rest(top),
                            )));
                            assert(tasks_value(tasks@) == 0);
                            assert(tasks_ok(tasks@));
                            assert(subs_total(task_rest(top)) == 0);
                            assert(forest_ok(task_rest(top)));
                        }
                        return Ok(top.acc);
                    }
                    let ghost q2 = tasks@;
                    let parent = tasks.pop().unwrap();
                    proof {
                        assert(tasks@ =~= q2.drop_last());
                        assert(parent == q2.last());
                        assert(task_wf(q2[q2.len() - 1]));
                        assert(tasks_value(qprev) == tasks_value(q2) + task_term(top));
                        assert(tasks_value(q2) == tasks_value(tasks@) + task_term(parent));
                        assert(tasks_ok(qprev) == (tasks_ok(q2) && forest_ok(task_rest(top))));
                        assert(tasks_ok(q2) == (tasks_ok(tasks@) && forest_ok(task_rest(parent))));
                        assert(forest_ok(task_rest(top)));
                        assert(subs_total(task_rest(top)) == 0);
                        assert(forest_count(task_rest(top)) == 0);
                        assert(tasks_count(qprev) == tasks_count(q2) + forest_count(
                            task_rest(top),
                        ));
                        assert(tasks_count(q2) == tasks_count(tasks@) + forest_count(
                            task_rest(parent),
                        ));
                    }
                    let merged = Task {
                        entries: parent.entries,
                        next: parent.next,
                        acc: parent.acc + top.acc,
                    };
                    let ghost base = tasks@;
                    proof {
                        lemma_tasks_push(tasks@, merged);
                        assert(task_rest(merged) =~= task_rest(parent));
                    }
                    tasks.push(merged);
                    proof {
                        assert forall|k: ErrKind|
                            tasks_has_kind(tasks@, k) implies tree_has_kind(*root, k) by {
                            assert(tasks_has_kind(base.push(merged), k) == (tasks_has_kind(base, k)
                                || forest_has_kind(task_rest(merged), k)));
                            assert(tasks_has_kind(q2, k) == (tasks_has_kind(base, k)
                                || forest_has_kind(task_rest(parent), k)));
                        }
                    }
                }
            }
            Err(ErrKind::Other)
        },
    }
}

} // verus!
