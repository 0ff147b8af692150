//! The sequential iterative strategy: the baseline correctness
//! reference.
//!
//! A heap-resident work list of pending nodes is seeded with the root.
//! One node at a time is popped and examined: a file adds its length to
//! the running total, a directory pushes all of its children, a symbolic
//! link or any other node kind is ignored, and a failing node aborts the
//! whole computation.  No call-stack recursion takes place, so the depth
//! of the tree does not bound the traversal.

use vstd::prelude::*;

use crate::model::ErrKind;
use crate::model::FsTree;
use crate::model::forest_count;
use crate::model::forest_has_kind;
use crate::model::forest_ok;
use crate::model::forest_total;
use crate::model::lemma_forest_take_step;
use crate::model::lemma_stack_push;
use crate::model::stack_count;
use crate::model::stack_has_kind;
use crate::model::stack_ok;
use crate::model::stack_total;
use crate::model::tree_has_kind;
use crate::model::tree_ok;
use crate::model::tree_total;

verus! {

/// Computes the total byte size of all regular files under `root`
/// with a single-threaded, heap-allocated work list.
///
/// The traversal succeeds exactly when no node of the tree fails, and
/// then returns the tree's total byte size; otherwise it aborts with a
/// failure kind that some node of the tree actually reports.
pub fn calc_space_usage_sequential(root: &FsTree) -> (r: Result<u64, ErrKind>)
    requires
        tree_total(*root) <= u64::MAX,
    ensures
        r is Ok <==> tree_ok(*root),
        r is Ok ==> r->Ok_0 == tree_total(*root),
        r is Err ==> tree_has_kind(*root, r->Err_0),
{
    let mut stack: Vec<&FsTree> = Vec::new();
    proof {
        lemma_stack_push(Seq::<&FsTree>::empty(), root);
    }
    stack.push(root);
    let mut size: u64 = 0;

    while stack.len() > 0
        invariant
            tree_total(*root) <= u64::MAX,
            size + stack_total(stack@) == tree_total(*root),
            stack_ok(stack@) <==> tree_ok(*root),
            forall|k: ErrKind| stack_has_kind(stack@, k) ==> tree_has_kind(*root, k),
        decreases stack_count(stack@),
    {
        let ghost prev = stack@;
        let t = stack.pop().unwrap();
        proof {
            assert(stack@ =~= prev.drop_last());
            assert(t == prev.last());
            assert forall|k: ErrKind|
                stack_has_kind(stack@, k) || tree_has_kind(*t, k) implies tree_has_kind(
                *root,
                k,
            ) by {
                assert(stack_has_kind(prev, k) == (stack_has_kind(stack@, k) || tree_has_kind(
                    *t,
                    k,
                )));
            }
        }
        match t {
            FsTree::File { size: len } => {
                size = size + *len;
            },
            FsTree::Symlink => {},
            FsTree::Other => {},
            FsTree::Unreadable { err } => {
                return Err(*err);
            },
            FsTree::Unlistable { err } => {
                return Err(*err);
            },
            FsTree::Dir { entries } => {
                let ghost base = stack@;
                proof {
                    assert(entries@.take(0) =~= Seq::<FsTree>::empty());
                }
                let mut i: usize = 0;
                while i < entries.len()
                    invariant
                        i <= entries.len(),
                        stack_total(stack@) == stack_total(base) + forest_total(
                            entries@.take(i as int),
                        ),
                        stack_ok(stack@) == (stack_ok(base) && forest_ok(
                            entries@.take(i as int),
                        )),
                        forall|k: ErrKind|
                            stack_has_kind(stack@, k) ==> stack_has_kind(base, k)
                                || forest_has_kind(entries@, k),
                        stack_count(stack@) == stack_count(base) + forest_count(
                            entries@.take(i as int),
                        ),
                    decreases entries.len() - i,
                {
                    let child: &FsTree = &entries[i];
                    let ghost mid = stack@;
                    proof {
                        lemma_stack_push(stack@, child);
                        lemma_forest_take_step(entries@, i as int);
                        crate::model::lemma_forest_remove(entries@, i as int);
                    }
                    stack.push(child);
                    proof {
                        assert forall|k: ErrKind|
                            stack_has_kind(stack@, k) implies stack_has_kind(base, k)
                            || forest_has_kind(entries@, k) by {
                            assert(stack_has_kind(mid.push(child), k) == (stack_has_kind(mid, k)
                                || tree_has_kind(*child, k)));
                            assert(forest_has_kind(entries@, k) == (forest_has_kind(
                                entries@.remove(i as int),
                                k,
                            ) || tree_has_kind(entries@[i as int], k)));
                        }
                    }
                    i = i + 1;
                }
                proof {
                    assert(entries@.take(entries@.len() as int) =~= entries@);
                    assert forall|k: ErrKind|
                        stack_has_kind(stack@, k) implies tree_has_kind(*root, k) by {
                        assert(stack_has_kind(stack@, k) ==> stack_has_kind(base, k)
                            || forest_has_kind(entries@, k));
                        assert(forest_has_kind(entries@, k) == tree_has_kind(*t, k));
                    }
                }
            },
        }
    }
    Ok(size)
}

} // verus!
