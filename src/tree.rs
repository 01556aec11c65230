use vstd::prelude::*;
use vstd::multiset::Multiset;

verus! {

/// A node of a rooted binary tree. Weights are branch lengths to the
/// parent, in ten-thousandths.
#[derive(Debug)]
pub enum NewickNode {
    Root { left_child: Box<NewickNode>, right_child: Box<NewickNode> },
    Node { left_child: Box<NewickNode>, right_child: Box<NewickNode>, weight: u64 },
    Leaf { weight: u64, label: String },
}

/// The labels of the leaves under `t`, with multiplicity.
pub open spec fn leaf_labels(t: NewickNode) -> Multiset<Seq<char>>
    decreases t,
{
    match t {
        NewickNode::Leaf { label, .. } => Multiset::singleton(label@),
        NewickNode::Node { left_child, right_child, .. } => leaf_labels(*left_child).add(
            leaf_labels(*right_child),
        ),
        NewickNode::Root { left_child, right_child } => leaf_labels(*left_child).add(
            leaf_labels(*right_child),
        ),
    }
}

pub open spec fn leaf_count(t: NewickNode) -> nat
    decreases t,
{
    match t {
        NewickNode::Leaf { .. } => 1,
        NewickNode::Node { left_child, right_child, .. } => leaf_count(*left_child) + leaf_count(
            *right_child,
        ),
        NewickNode::Root { left_child, right_child } => leaf_count(*left_child) + leaf_count(
            *right_child,
        ),
    }
}

/// Number of branching nodes (internal nodes and the root) under `t`.
pub open spec fn branch_count(t: NewickNode) -> nat
    decreases t,
{
    match t {
        NewickNode::Leaf { .. } => 0,
        NewickNode::Node { left_child, right_child, .. } => 1 + branch_count(*left_child)
            + branch_count(*right_child),
        NewickNode::Root { left_child, right_child } => 1 + branch_count(*left_child)
            + branch_count(*right_child),
    }
}

/// Number of internal nodes (the root not included) under `t`.
pub open spec fn internal_count(t: NewickNode) -> nat
    decreases t,
{
    match t {
        NewickNode::Leaf { .. } => 0,
        NewickNode::Node { left_child, right_child, .. } => 1 + internal_count(*left_child)
            + internal_count(*right_child),
        NewickNode::Root { left_child, right_child } => internal_count(*left_child)
            + internal_count(*right_child),
    }
}

/// A subtree hanging below a parent: no root anywhere in it.
pub open spec fn is_subtree(t: NewickNode) -> bool
    decreases t,
{
    match t {
        NewickNode::Leaf { .. } => true,
        NewickNode::Node { left_child, right_child, .. } => is_subtree(*left_child) && is_subtree(
            *right_child,
        ),
        NewickNode::Root { .. } => false,
    }
}

/// A whole tree: a root over two subtrees.
pub open spec fn is_tree(t: NewickNode) -> bool {
    match t {
        NewickNode::Root { left_child, right_child } => is_subtree(*left_child) && is_subtree(
            *right_child,
        ),
        _ => false,
    }
}

/// Every branch length under `t` lies in `[low, high)`.
pub open spec fn weights_within(t: NewickNode, low: u64, high: u64) -> bool
    decreases t,
{
    match t {
        NewickNode::Leaf { weight, .. } => low <= weight < high,
        NewickNode::Node { left_child, right_child, weight } => low <= weight < high
            && weights_within(*left_child, low, high) && weights_within(*right_child, low, high),
        NewickNode::Root { left_child, right_child } => weights_within(*left_child, low, high)
            && weights_within(*right_child, low, high),
    }
}

/// Lowercase ASCII letters only.
pub open spec fn is_word(s: Seq<char>) -> bool {
    forall|k: int| 0 <= k < s.len() ==> 97 <= (#[trigger] s[k]) as u32 <= 122
}

/// Every leaf label under `t` is a word of lowercase letters.
pub open spec fn labels_are_words(t: NewickNode) -> bool
    decreases t,
{
    match t {
        NewickNode::Leaf { label, .. } => is_word(label@),
        NewickNode::Node { left_child, right_child, .. } => labels_are_words(*left_child)
            && labels_are_words(*right_child),
        NewickNode::Root { left_child, right_child } => labels_are_words(*left_child)
            && labels_are_words(*right_child),
    }
}

/// Every leaf under `t` lies at distance `total` along the branches, the
/// branch from `t` to its parent included.
pub open spec fn paths_sum_to(t: NewickNode, total: int) -> bool
    decreases t,
{
    match t {
        NewickNode::Leaf { weight, .. } => weight == total,
        NewickNode::Node { left_child, right_child, weight } => weight <= total && paths_sum_to(
            *left_child,
            total - weight,
        ) && paths_sum_to(*right_child, total - weight),
        NewickNode::Root { left_child, right_child } => paths_sum_to(*left_child, total)
            && paths_sum_to(*right_child, total),
    }
}

/// A strictly binary tree has one branching node fewer than it has leaves.
pub proof fn lemma_binary_counts(t: NewickNode)
    ensures
        branch_count(t) + 1 == leaf_count(t),
        leaf_labels(t).len() == leaf_count(t),
    decreases t,
{
    match t {
        NewickNode::Leaf { .. } => {},
        NewickNode::Node { left_child, right_child, .. } => {
            lemma_binary_counts(*left_child);
            lemma_binary_counts(*right_child);
        },
        NewickNode::Root { left_child, right_child } => {
            lemma_binary_counts(*left_child);
            lemma_binary_counts(*right_child);
        },
    }
}

/// Below the root every branching node is internal.
pub proof fn lemma_internal_counts(t: NewickNode)
    ensures
        is_subtree(t) ==> internal_count(t) == branch_count(t),
        is_tree(t) ==> internal_count(t) + 1 == branch_count(t),
    decreases t,
{
    match t {
        NewickNode::Leaf { .. } => {},
        NewickNode::Node { left_child, right_child, .. } => {
            lemma_internal_counts(*left_child);
            lemma_internal_counts(*right_child);
        },
        NewickNode::Root { left_child, right_child } => {
            lemma_internal_counts(*left_child);
            lemma_internal_counts(*right_child);
        },
    }
}

pub fn new_leaf_weightless(l: String, w: u64) -> (r: NewickNode)
    ensures
        r == (NewickNode::Leaf { weight: w, label: l }),
{
    NewickNode::Leaf { weight: w, label: l }
}

pub fn new_node_weightless(lc: NewickNode, rc: NewickNode, w: u64) -> (r: NewickNode)
    ensures
        r == (NewickNode::Node { left_child: Box::new(lc), right_child: Box::new(rc), weight: w }),
{
    NewickNode::Node { left_child: Box::new(lc), right_child: Box::new(rc), weight: w }
}

pub fn new_root(lc: NewickNode, rc: NewickNode) -> (r: NewickNode)
    ensures
        r == (NewickNode::Root { left_child: Box::new(lc), right_child: Box::new(rc) }),
{
    NewickNode::Root { left_child: Box::new(lc), right_child: Box::new(rc) }
}

} // verus!
