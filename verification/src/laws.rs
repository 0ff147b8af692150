//! The order-insensitivity and exclusion laws of the aggregation.

use vstd::prelude::*;

use crate::model::ErrKind;
use crate::model::FsTree;
use crate::model::forest_has_kind;
use crate::model::forest_ok;
use crate::model::forest_total;
use crate::model::lemma_forest_remove;
use crate::model::tree_ok;
use crate::model::tree_total;

verus! {

/// Order independence: enumerating a directory's children in any other
/// order — any sequence with the same multiset of children — changes
/// neither the total byte size, nor whether the traversal succeeds, nor
/// which failure kinds the subtree can surface.  The aggregation step
/// is therefore insensitive to completion order.
pub proof fn lemma_order_independence(s1: Seq<FsTree>, s2: Seq<FsTree>)
    requires
        s1.to_multiset() == s2.to_multiset(),
    ensures
        forest_total(s1) == forest_total(s2),
        forest_ok(s1) == forest_ok(s2),
        forall|k: ErrKind| forest_has_kind(s1, k) == forest_has_kind(s2, k),
    decreases s1.len(),
{
    broadcast use vstd::seq_lib::group_to_multiset_ensures;

    if s1.len() == 0 {
        assert(s2.len() == s2.to_multiset().len());
        assert(s1.len() == s1.to_multiset().len());
    } else {
        let x = s1.last();
        assert(s1.contains(x));
        assert(s1.to_multiset().count(x) > 0);
        assert(s2.to_multiset().count(x) > 0);
        assert(s2.contains(x));
        let j = choose|j: int| 0 <= j < s2.len() && s2[j] == x;
        assert(s1.drop_last() =~= s1.remove(s1.len() - 1));
        assert(s1.remove(s1.len() - 1).to_multiset() == s1.to_multiset().remove(x));
        assert(s2.remove(j).to_multiset() == s2.to_multiset().remove(x));
        lemma_order_independence(s1.drop_last(), s2.remove(j));
        lemma_forest_remove(s2, j);
        assert forall|k: ErrKind| forest_has_kind(s1, k) == forest_has_kind(s2, k) by {
            assert(forest_has_kind(s1.drop_last(), k) == forest_has_kind(s2.remove(j), k));
            assert(forest_has_kind(s2, k) == (forest_has_kind(s2.remove(j), k)
                || crate::model::tree_has_kind(s2[j], k)));
        }
    }
}

/// Symbolic-link exclusion: a symbolic link among a directory's
/// children — whatever it points at, even cyclically — contributes
/// nothing.  Inserting one anywhere changes neither the total, nor
/// whether the traversal succeeds, nor which failure kinds the subtree
/// can surface.  A link has no children in the model at all, so no
/// strategy can descend into its target or loop on a cycle of links.
pub proof fn lemma_symlink_excluded(s: Seq<FsTree>, i: int)
    requires
        0 <= i <= s.len(),
    ensures
        forest_total(s.insert(i, FsTree::Symlink)) == forest_total(s),
        forest_ok(s.insert(i, FsTree::Symlink)) == forest_ok(s),
        forall|k: ErrKind|
            forest_has_kind(s.insert(i, FsTree::Symlink), k) == forest_has_kind(s, k),
{
    let t = s.insert(i, FsTree::Symlink);
    assert(t.remove(i) =~= s);
    assert(t[i] == FsTree::Symlink);
    lemma_forest_remove(t, i);
    assert forall|k: ErrKind| forest_has_kind(t, k) == forest_has_kind(s, k) by {
        assert(forest_has_kind(t, k) == (forest_has_kind(t.remove(i), k)
            || crate::model::tree_has_kind(t[i], k)));
    }
}

/// Equivalence across strategies: any two results that meet the shared
/// traversal contract on the same tree succeed together, and then carry
/// the same total.  Since every strategy is proved against exactly this
/// contract, all strategies return the identical total on any fixed
/// tree; only the failure kind reported for a tree with several failing
/// nodes may differ with traversal order.
pub proof fn lemma_strategy_equivalence(
    t: FsTree,
    r1: Result<u64, ErrKind>,
    r2: Result<u64, ErrKind>,
)
    requires
        r1 is Ok <==> tree_ok(t),
        r1 is Ok ==> r1->Ok_0 == tree_total(t),
        r2 is Ok <==> tree_ok(t),
        r2 is Ok ==> r2->Ok_0 == tree_total(t),
    ensures
        r1 is Ok <==> r2 is Ok,
        r1 is Ok ==> r1->Ok_0 == r2->Ok_0,
{
}

} // verus!
