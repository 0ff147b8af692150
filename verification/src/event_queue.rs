//! The single-driver event-queue strategy.
//!
//! The driver owns two wait-sets: pending metadata resolutions and
//! pending directory enumerations.  It repeatedly services whichever set
//! has work: a resolved file adds to the running total, a resolved
//! directory enters the enumeration set, and an enumeration step yields
//! one child (which becomes a new pending resolution) and re-enters the
//! set with the remaining entries.  The loop terminates exactly when
//! both wait-sets are empty.  All mutable state — the running total and
//! the two sets — is owned by this single loop, so no synchronization is
//! needed around the aggregation.

use vstd::prelude::*;

use crate::model::ErrKind;
use crate::model::FsTree;
use crate::model::forest_count;
use crate::model::forest_has_kind;
use crate::model::forest_ok;
use crate::model::forest_total;
use crate::model::lemma_forest_unfold_front;
use crate::model::lemma_stack_push;
use crate::model::stack_count;
use crate::model::stack_has_kind;
use crate::model::stack_ok;
use crate::model::stack_total;
use crate::model::tree_has_kind;
use crate::model::tree_ok;
use crate::model::tree_total;

verus! {

/// One outstanding directory enumeration: the directory's entries and
/// the position of the next entry it has yet to yield.
struct EnumCursor<'a> {
    entries: &'a Vec<FsTree>,
    next: usize,
}

impl<'a> Clone for EnumCursor<'a> {
    fn clone(&self) -> (r: Self)
        ensures
            r == *self,
    {
        EnumCursor { entries: self.entries, next: self.next }
    }
}

impl<'a> Copy for EnumCursor<'a> {

}

/// The entries an outstanding enumeration has yet to yield.
spec fn cursor_rest(c: EnumCursor<'_>) -> Seq<FsTree> {
    c.entries@.skip(c.next as int)
}

/// A cursor never points past the end of its entry list.
spec fn cursor_wf(c: EnumCursor<'_>) -> bool {
    c.next <= c.entries@.len()
}

/// Total byte size still to be yielded by a set of enumerations.
spec fn queue_total(q: Seq<EnumCursor<'_>>) -> nat
    decreases q,
{
    if q.len() == 0 {
        0
    } else {
        queue_total(q.drop_last()) + forest_total(cursor_rest(q.last()))
    }
}

/// Whether everything still to be yielded is free of failing nodes.
spec fn queue_ok(q: Seq<EnumCursor<'_>>) -> bool
    decreases q,
{
    if q.len() == 0 {
        true
    } else {
        queue_ok(q.drop_last()) && forest_ok(cursor_rest(q.last()))
    }
}

/// Whether something still to be yielded fails with the kind `k`.
spec fn queue_has_kind(q: Seq<EnumCursor<'_>>, k: ErrKind) -> bool
    decreases q,
{
    if q.len() == 0 {
        false
    } else {
        queue_has_kind(q.drop_last(), k) || forest_has_kind(cursor_rest(q.last()), k)
    }
}

/// Number of nodes still to be yielded by a set of enumerations.
spec fn queue_count(q: Seq<EnumCursor<'_>>) -> nat
    decreases q,
{
    if q.len() == 0 {
        0
    } else {
        queue_count(q.drop_last()) + forest_count(cursor_rest(q.last()))
    }
}

/// Number of entries still to be yielded, summed over the set.
spec fn queue_rest_len(q: Seq<EnumCursor<'_>>) -> nat
    decreases q,
{
    if q.len() == 0 {
        0
    } else {
        queue_rest_len(q.drop_last()) + cursor_rest(q.last()).len()
    }
}

/// Adding one outstanding enumeration adds exactly its remaining
/// contribution to each queue measure.
proof fn lemma_queue_push<'a>(q: Seq<EnumCursor<'a>>, c: EnumCursor<'a>)
    ensures
        queue_total(q.push(c)) == queue_total(q) + forest_total(cursor_rest(c)),
        queue_ok(q.push(c)) == (queue_ok(q) && forest_ok(cursor_rest(c))),
        forall|k: ErrKind|
            queue_has_kind(q.push(c), k) == (queue_has_kind(q, k) || forest_has_kind(
                cursor_rest(c),
                k,
            )),
        queue_count(q.push(c)) == queue_count(q) + forest_count(cursor_rest(c)),
        queue_rest_len(q.push(c)) == queue_rest_len(q) + cursor_rest(c).len(),
{
    assert(q.push(c).drop_last() =~= q);
    assert(q.push(c).last() == c);
}

/// Computes the total byte size of all regular files under `root` with
/// a single driver loop over two wait-sets, never recursing and never
/// holding more state than the currently outstanding operations.
///
/// The traversal succeeds exactly when no node of the tree fails, and
/// then returns the tree's total byte size; otherwise it aborts with a
/// failure kind that some node of the tree actually reports.
pub fn calc_space_usage_event_queue(root: &FsTree) -> (r: Result<u64, ErrKind>)
    requires
        tree_total(*root) <= u64::MAX,
    ensures
        r is Ok <==> tree_ok(*root),
        r is Ok ==> r->Ok_0 == tree_total(*root),
        r is Err ==> tree_has_kind(*root, r->Err_0),
{
    let mut meta_queue: Vec<&FsTree> = Vec::new();
    proof {
        lemma_stack_push(Seq::<&FsTree>::empty(), root);
    }
    meta_queue.push(root);
    let mut entry_queue: Vec<EnumCursor> = Vec::new();
    let mut size: u64 = 0;

    while meta_queue.len() > 0 || entry_queue.len() > 0
        invariant
            tree_total(*root) <= u64::MAX,
            forall|j: int| 0 <= j < entry_queue@.len() ==> #[trigger] cursor_wf(entry_queue@[j]),
            size + stack_total(meta_queue@) + queue_total(entry_queue@) == tree_total(*root),
            (stack_ok(meta_queue@) && queue_ok(entry_queue@)) <==> tree_ok(*root),
            forall|k: ErrKind|
                stack_has_kind(meta_queue@, k) || queue_has_kind(entry_queue@, k)
                    ==> tree_has_kind(*root, k),
        decreases
            stack_count(meta_queue@) + queue_count(entry_queue@),
            queue_rest_len(entry_queue@),
            entry_queue@.len(),
    {
        if meta_queue.len() > 0 {
            let ghost prev = meta_queue@;
            let t = meta_queue.pop().unwrap();
            proof {
                assert(meta_queue@ =~= prev.drop_last());
                assert(t == prev.last());
                assert forall|k: ErrKind|
                    stack_has_kind(meta_queue@, k) || tree_has_kind(*t, k)
                        implies tree_has_kind(*root, k) by {
                    assert(stack_has_kind(prev, k) == (stack_has_kind(meta_queue@, k)
                        || tree_has_kind(*t, k)));
                }
            }
            match t {
                FsTree::File { size: len } => {
                    size = size + *len;
                },
                FsTree::Symlink => {},
                FsTree::Other => {},
                FsTree::Unreadable { err } => {
                    return Err(*err);
                },
                FsTree::Unlistable { err } => {
                    return Err(*err);
                },
                FsTree::Dir { entries } => {
                    let ghost qprev = entry_queue@;
                    let cursor = EnumCursor { entries, next: 0 };
                    proof {
                        lemma_queue_push(entry_queue@, cursor);
                        assert(cursor_rest(cursor) =~= entries@);
                    }
                    entry_queue.push(cursor);
                    proof {
                        assert forall|k: ErrKind|
                            stack_has_kind(meta_queue@, k) || queue_has_kind(entry_queue@, k)
                                implies tree_has_kind(*root, k) by {
                            assert(queue_has_kind(qprev.push(cursor), k) == (queue_has_kind(
                                qprev,
                                k,
                            ) || forest_has_kind(cursor_rest(cursor), k)));
                            assert(forest_has_kind(entries@, k) == tree_has_kind(*t, k));
                        }
                    }
                },
            }
        } else {
            let ghost qprev = entry_queue@;
            let c = entry_queue.pop().unwrap();
            proof {
                assert(entry_queue@ =~= qprev.drop_last());
                assert(c == qprev.last());
                assert(cursor_wf(qprev[qprev.len() - 1]));
            }
            if c.next < c.entries.len() {
                let child: &FsTree = &c.entries[c.next];
                let again = EnumCursor { entries: c.entries, next: c.next + 1 };
                let ghost r = cursor_rest(c);
                proof {
                    assert(r.len() > 0);
                    lemma_forest_unfold_front(r);
                    assert(r[0] == c.entries@[c.next as int]);
                    assert(r.drop_first() =~= cursor_rest(again));
                    lemma_queue_push(entry_queue@, again);
                    lemma_stack_push(meta_queue@, child);
                }
                let ghost qmid = entry_queue@;
                let ghost mmid = meta_queue@;
                entry_queue.push(again);
                meta_queue.push(child);
                proof {
                    assert forall|k: ErrKind|
                        stack_has_kind(meta_queue@, k) || queue_has_kind(entry_queue@, k)
                            implies tree_has_kind(*root, k) by {
                        assert(stack_has_kind(mmid.push(child), k) == (stack_has_kind(mmid, k)
                            || tree_has_kind(*child, k)));
                        assert(queue_has_kind(qmid.push(again), k) == (queue_has_kind(qmid, k)
                            || forest_has_kind(cursor_rest(again), k)));
                        assert(queue_has_kind(qprev, k) == (queue_has_kind(qmid, k)
                            || forest_has_kind(r, k)));
                        assert(forest_has_kind(r, k) == (tree_has_kind(r[0], k)
                            || forest_has_kind(r.drop_first(), k)));
                    }
                }
            } else {
                proof {
                    assert(cursor_rest(c) =~= Seq::<FsTree>::empty());
                    assert forall|k: ErrKind|
                        stack_has_kind(meta_queue@, k) || queue_has_kind(entry_queue@, k)
                            implies tree_has_kind(*root, k) by {
                        assert(queue_has_kind(qprev, k) == (queue_has_kind(entry_queue@, k)
                            || forest_has_kind(cursor_rest(c), k)));
                    }
                }
            }
        }
    }
    Ok(size)
}

} // verus!
