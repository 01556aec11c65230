use vstd::prelude::*;
use crate::tree::{
    branch_count, internal_count, is_subtree, is_tree, labels_are_words, leaf_count, leaf_labels,
    new_leaf_weightless, new_node_weightless, new_root, paths_sum_to, NewickNode,
};

verus! {

/// Fractions are given in millionths: `FRACTION_SCALE` stands for the whole.
pub const FRACTION_SCALE: u64 = 1000000;

/// Every fraction lies in `[0, 1]`.
pub open spec fn fractions_valid(fr: Seq<u32>) -> bool {
    forall|k: int| 0 <= k < fr.len() ==> #[trigger] fr[k] <= FRACTION_SCALE
}

/// The part `f` (in millionths) of `left`, rounded down.
pub open spec fn share(left: nat, f: nat) -> nat {
    left * f / (FRACTION_SCALE as nat)
}

/// `t` rescaled so that every leaf lies `left` below the branch into `t`:
/// the internal nodes take, in preorder, the fractions of `fr` from `pos`
/// on, each of what its parent left over, and each leaf takes what remains.
pub open spec fn ultra(t: NewickNode, left: nat, fr: Seq<u32>, pos: int) -> NewickNode
    decreases t,
{
    match t {
        NewickNode::Root { left_child, right_child } => NewickNode::Root {
            left_child: Box::new(ultra(*left_child, left, fr, pos)),
            right_child: Box::new(ultra(*right_child, left, fr, pos + internal_count(*left_child))),
        },
        NewickNode::Node { left_child, right_child, .. } => {
            let w = share(left, fr[pos] as nat);
            let rest = (left - w) as nat;
            NewickNode::Node {
                left_child: Box::new(ultra(*left_child, rest, fr, pos + 1)),
                right_child: Box::new(
                    ultra(*right_child, rest, fr, pos + 1 + internal_count(*left_child)),
                ),
                weight: w as u64,
            }
        },
        NewickNode::Leaf { label, .. } => NewickNode::Leaf { weight: left as u64, label },
    }
}

proof fn lemma_share_bounded(left: nat, f: nat)
    requires
        f <= FRACTION_SCALE,
    ensures
        share(left, f) <= left,
{
    assert(left * f / 1000000 <= left) by (nonlinear_arith)
        requires
            f <= 1000000,
    ;
}

/// After rescaling to `left`, every leaf lies exactly `left` below the
/// branch into the subtree; for a whole tree, every root-to-leaf path sums
/// to the height.
pub proof fn lemma_ultrametric_paths(t: NewickNode, left: nat, fr: Seq<u32>, pos: int)
    requires
        0 <= pos,
        pos + internal_count(t) <= fr.len(),
        fractions_valid(fr),
        left <= u64::MAX,
    ensures
        paths_sum_to(ultra(t, left, fr, pos), left as int),
    decreases t,
{
    match t {
        NewickNode::Root { left_child, right_child } => {
            lemma_ultrametric_paths(*left_child, left, fr, pos);
            lemma_ultrametric_paths(*right_child, left, fr, pos + internal_count(*left_child));
        },
        NewickNode::Node { left_child, right_child, .. } => {
            let w = share(left, fr[pos] as nat);
            lemma_share_bounded(left, fr[pos] as nat);
            let rest = (left - w) as nat;
            lemma_ultrametric_paths(*left_child, rest, fr, pos + 1);
            lemma_ultrametric_paths(*right_child, rest, fr, pos + 1 + internal_count(*left_child));
        },
        NewickNode::Leaf { .. } => {},
    }
}

/// Rescaling keeps the topology, the labels and the counts.
pub proof fn lemma_ultra_keeps_shape(t: NewickNode, left: nat, fr: Seq<u32>, pos: int)
    ensures
        leaf_labels(ultra(t, left, fr, pos)) == leaf_labels(t),
        leaf_count(ultra(t, left, fr, pos)) == leaf_count(t),
        branch_count(ultra(t, left, fr, pos)) == branch_count(t),
        internal_count(ultra(t, left, fr, pos)) == internal_count(t),
        is_subtree(ultra(t, left, fr, pos)) == is_subtree(t),
        is_tree(ultra(t, left, fr, pos)) == is_tree(t),
        labels_are_words(ultra(t, left, fr, pos)) == labels_are_words(t),
    decreases t,
{
    match t {
        NewickNode::Root { left_child, right_child } => {
            lemma_ultra_keeps_shape(*left_child, left, fr, pos);
            lemma_ultra_keeps_shape(*right_child, left, fr, pos + internal_count(*left_child));
        },
        NewickNode::Node { left_child, right_child, .. } => {
            let rest = (left - share(left, fr[pos] as nat)) as nat;
            lemma_ultra_keeps_shape(*left_child, rest, fr, pos + 1);
            lemma_ultra_keeps_shape(*right_child, rest, fr, pos + 1 + internal_count(*left_child));
        },
        NewickNode::Leaf { .. } => {},
    }
}

/// Rebuilds `tree` so that every leaf lies `left` below the branch into it.
/// Each internal node, in preorder, takes the next fraction of
/// `fractions` (from `*next` on) of the length still left; each leaf takes
/// what remains.
pub fn make_ultrametric(tree: NewickNode, left: u64, fractions: &Vec<u32>, next: &mut usize) -> (r:
    NewickNode)
    requires
        *old(next) + internal_count(tree) <= fractions@.len(),
        fractions_valid(fractions@),
    ensures
        r == ultra(tree, left as nat, fractions@, *old(next) as int),
        *final(next) == *old(next) + internal_count(tree),
    decreases tree,
{
    match tree {
        NewickNode::Root { left_child, right_child } => {
            let l = make_ultrametric(*left_child, left, fractions, next);
            let r = make_ultrametric(*right_child, left, fractions, next);
            new_root(l, r)
        },
        NewickNode::Node { left_child, right_child, .. } => {
            let f = fractions[*next];
            proof {
                lemma_share_bounded(left as nat, f as nat);
                assert((left as u128) * (f as u128) <= (u64::MAX as u128) * (u32::MAX as u128))
                    by (nonlinear_arith);
            }
            let w = ((left as u128) * (f as u128) / (FRACTION_SCALE as u128)) as u64;
            let available = fractions.len();
            proof {
                assert(*next < available);
            }
            *next = *next + 1;
            let rest = left - w;
            let l = make_ultrametric(*left_child, rest, fractions, next);
            let r = make_ultrametric(*right_child, rest, fractions, next);
            new_node_weightless(l, r, w)
        },
        NewickNode::Leaf { label, .. } => new_leaf_weightless(label, left),
    }
}

} // verus!
