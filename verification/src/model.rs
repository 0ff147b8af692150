//! The snapshot model of a directory tree.
//!
//! A traversal works on a frozen picture of the filesystem: every node is
//! a regular file with a reported byte length, a directory with a finite
//! list of children, a symbolic link (never followed, so it needs no
//! target here), something else (a socket, a device), or a node on which
//! one of the two metadata operations fails.  The spec functions below
//! define the total byte size of a tree, whether a traversal of it can
//! succeed, and which failure kinds it can surface.

use vstd::prelude::*;

verus! {

/// The kinds of I/O failure a metadata lookup or a directory listing can
/// report.  Any error at any node aborts the whole computation.
#[derive(Clone, Copy, Debug, PartialEq, Eq, Structural)]
pub enum ErrKind {
    /// The path vanished between being listed and being examined.
    NotFound,
    /// The filesystem denied the metadata lookup or the listing.
    PermissionDenied,
    /// Any remaining I/O failure.
    Other,
}

/// One node of the frozen directory tree that a traversal runs over.
#[derive(Debug)]
pub enum FsTree {
    /// A regular file with its reported length in bytes.
    File { size: u64 },
    /// A directory and its immediate children.
    Dir { entries: Vec<FsTree> },
    /// A symbolic link: contributes nothing and is never followed.
    Symlink,
    /// Any other node kind (device, socket, ...): contributes nothing.
    Other,
    /// A node whose metadata lookup fails with the given kind.
    Unreadable { err: ErrKind },
    /// A directory whose metadata resolves but whose listing fails.
    Unlistable { err: ErrKind },
}

/// The total byte size of every regular file in the tree.  Symbolic
/// links and failing nodes contribute nothing; the value is meaningful
/// for a computation only when `tree_ok` holds.
pub open spec fn tree_total(t: FsTree) -> nat
    decreases t,
{
    match t {
        FsTree::File { size } => size as nat,
        FsTree::Dir { entries } => forest_total(entries@),
        FsTree::Symlink => 0,
        FsTree::Other => 0,
        FsTree::Unreadable { .. } => 0,
        FsTree::Unlistable { .. } => 0,
    }
}

/// The total byte size of a sequence of sibling trees.
pub open spec fn forest_total(s: Seq<FsTree>) -> nat
    decreases s,
{
    if s.len() == 0 {
        0
    } else {
        forest_total(s.drop_last()) + tree_total(s.last())
    }
}

/// Whether a traversal of the tree can succeed: no node in it fails.
pub open spec fn tree_ok(t: FsTree) -> bool
    decreases t,
{
    match t {
        FsTree::Dir { entries } => forest_ok(entries@),
        FsTree::Unreadable { .. } => false,
        FsTree::Unlistable { .. } => false,
        _ => true,
    }
}

/// Whether every tree in the sequence is free of failing nodes.
pub open spec fn forest_ok(s: Seq<FsTree>) -> bool
    decreases s,
{
    if s.len() == 0 {
        true
    } else {
        forest_ok(s.drop_last()) && tree_ok(s.last())
    }
}

/// Whether some node in the tree fails with exactly the kind `k`.
pub open spec fn tree_has_kind(t: FsTree, k: ErrKind) -> bool
    decreases t,
{
    match t {
        FsTree::Dir { entries } => forest_has_kind(entries@, k),
        FsTree::Unreadable { err } => err == k,
        FsTree::Unlistable { err } => err == k,
        _ => false,
    }
}

/// Whether some node in the sequence of trees fails with the kind `k`.
pub open spec fn forest_has_kind(s: Seq<FsTree>, k: ErrKind) -> bool
    decreases s,
{
    if s.len() == 0 {
        false
    } else {
        forest_has_kind(s.drop_last(), k) || tree_has_kind(s.last(), k)
    }
}

/// The number of nodes in the tree; a termination measure for the
/// iterative traversals.
pub open spec fn tree_count(t: FsTree) -> nat
    decreases t,
{
    match t {
        FsTree::Dir { entries } => 1 + forest_count(entries@),
        _ => 1,
    }
}

/// The number of nodes in a sequence of sibling trees.
pub open spec fn forest_count(s: Seq<FsTree>) -> nat
    decreases s,
{
    if s.len() == 0 {
        0
    } else {
        forest_count(s.drop_last()) + tree_count(s.last())
    }
}

/// Extending a prefix of siblings by one more tree extends all four
/// forest measures by that tree's contribution.
pub proof fn lemma_forest_take_step(s: Seq<FsTree>, i: int)
    requires
        0 <= i < s.len(),
    ensures
        forest_total(s.take(i + 1)) == forest_total(s.take(i)) + tree_total(s[i]),
        forest_ok(s.take(i + 1)) == (forest_ok(s.take(i)) && tree_ok(s[i])),
        forall|k: ErrKind|
            forest_has_kind(s.take(i + 1), k) == (forest_has_kind(s.take(i), k)
                || tree_has_kind(s[i], k)),
        forest_count(s.take(i + 1)) == forest_count(s.take(i)) + tree_count(s[i]),
{
    assert(s.take(i + 1).drop_last() =~= s.take(i));
    assert(s.take(i + 1).last() == s[i]);
}

/// A sequence of siblings can also be unfolded at its front.
pub proof fn lemma_forest_unfold_front(s: Seq<FsTree>)
    requires
        s.len() > 0,
    ensures
        forest_total(s) == tree_total(s[0]) + forest_total(s.drop_first()),
        forest_ok(s) == (tree_ok(s[0]) && forest_ok(s.drop_first())),
        forall|k: ErrKind|
            forest_has_kind(s, k) == (tree_has_kind(s[0], k) || forest_has_kind(
                s.drop_first(),
                k,
            )),
        forest_count(s) == tree_count(s[0]) + forest_count(s.drop_first()),
    decreases s.len(),
{
    if s.len() == 1 {
        assert(s.drop_first() =~= Seq::<FsTree>::empty());
        assert(s.drop_last() =~= Seq::<FsTree>::empty());
        assert(s.last() == s[0]);
    } else {
        lemma_forest_unfold_front(s.drop_last());
        assert(s.drop_last()[0] == s[0]);
        assert(s.drop_first().drop_last() =~= s.drop_last().drop_first());
        assert(s.drop_first().last() == s.last());
        assert(s.drop_first().len() > 0);
        assert forall|k: ErrKind|
            forest_has_kind(s, k) == (tree_has_kind(s[0], k) || forest_has_kind(
                s.drop_first(),
                k,
            )) by {
            assert(forest_has_kind(s, k) == (forest_has_kind(s.drop_last(), k) || tree_has_kind(
                s.last(),
                k,
            )));
            assert(forest_has_kind(s.drop_first(), k) == (forest_has_kind(
                s.drop_first().drop_last(),
                k,
            ) || tree_has_kind(s.drop_first().last(), k)));
        }
    }
}

/// Removing one sibling removes exactly its contribution from all four
/// forest measures.
pub proof fn lemma_forest_remove(s: Seq<FsTree>, i: int)
    requires
        0 <= i < s.len(),
    ensures
        forest_total(s) == forest_total(s.remove(i)) + tree_total(s[i]),
        forest_ok(s) == (forest_ok(s.remove(i)) && tree_ok(s[i])),
        forall|k: ErrKind|
            forest_has_kind(s, k) == (forest_has_kind(s.remove(i), k) || tree_has_kind(
                s[i],
                k,
            )),
        forest_count(s) == forest_count(s.remove(i)) + tree_count(s[i]),
    decreases s.len(),
{
    if i == s.len() - 1 {
        assert(s.remove(i) =~= s.drop_last());
        assert(s.last() == s[i]);
    } else {
        lemma_forest_remove(s.drop_last(), i);
        assert(s.remove(i).drop_last() =~= s.drop_last().remove(i));
        assert(s.remove(i).last() == s.last());
        assert(s.remove(i).len() > 0);
        assert(s.drop_last()[i] == s[i]);
        assert forall|k: ErrKind|
            forest_has_kind(s, k) == (forest_has_kind(s.remove(i), k) || tree_has_kind(
                s[i],
                k,
            )) by {
            assert(forest_has_kind(s, k) == (forest_has_kind(s.drop_last(), k) || tree_has_kind(
                s.last(),
                k,
            )));
            assert(forest_has_kind(s.remove(i), k) == (forest_has_kind(
                s.remove(i).drop_last(),
                k,
            ) || tree_has_kind(s.remove(i).last(), k)));
        }
    }
}

/// The total byte size of the trees on a work list of pending nodes.
pub open spec fn stack_total(s: Seq<&FsTree>) -> nat
    decreases s,
{
    if s.len() == 0 {
        0
    } else {
        stack_total(s.drop_last()) + tree_total(*s.last())
    }
}

/// Whether every tree on a work list is free of failing nodes.
pub open spec fn stack_ok(s: Seq<&FsTree>) -> bool
    decreases s,
{
    if s.len() == 0 {
        true
    } else {
        stack_ok(s.drop_last()) && tree_ok(*s.last())
    }
}

/// Whether some tree on a work list fails somewhere with the kind `k`.
pub open spec fn stack_has_kind(s: Seq<&FsTree>, k: ErrKind) -> bool
    decreases s,
{
    if s.len() == 0 {
        false
    } else {
        stack_has_kind(s.drop_last(), k) || tree_has_kind(*s.last(), k)
    }
}

/// The number of nodes across all trees on a work list.
pub open spec fn stack_count(s: Seq<&FsTree>) -> nat
    decreases s,
{
    if s.len() == 0 {
        0
    } else {
        stack_count(s.drop_last()) + tree_count(*s.last())
    }
}

/// Pushing one pending tree onto a work list adds exactly its
/// contribution to each of the four work-list measures.
pub proof fn lemma_stack_push<'a>(s: Seq<&'a FsTree>, t: &'a FsTree)
    ensures
        stack_total(s.push(t)) == stack_total(s) + tree_total(*t),
        stack_ok(s.push(t)) == (stack_ok(s) && tree_ok(*t)),
        forall|k: ErrKind|
            stack_has_kind(s.push(t), k) == (stack_has_kind(s, k) || tree_has_kind(*t, k)),
        stack_count(s.push(t)) == stack_count(s) + tree_count(*t),
{
    assert(s.push(t).drop_last() =~= s);
    assert(s.push(t).last() == t);
}

/// A failure kind that occurs somewhere in the tree rules a successful
/// traversal out, and a tree with no failing node carries no kind.
pub proof fn lemma_has_kind_not_ok(t: FsTree, k: ErrKind)
    ensures
        tree_has_kind(t, k) ==> !tree_ok(t),
    decreases t,
{
    match t {
        FsTree::Dir { entries } => {
            lemma_forest_has_kind_not_ok(entries@, k);
        },
        _ => {},
    }
}

/// The sibling-sequence form of `lemma_has_kind_not_ok`.
pub proof fn lemma_forest_has_kind_not_ok(s: Seq<FsTree>, k: ErrKind)
    ensures
        forest_has_kind(s, k) ==> !forest_ok(s),
    decreases s,
{
    if s.len() > 0 {
        lemma_forest_has_kind_not_ok(s.drop_last(), k);
        lemma_has_kind_not_ok(s.last(), k);
    }
}

} // verus!
