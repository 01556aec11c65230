use vstd::prelude::*;
use vstd::multiset::Multiset;
use rand::rngs::StdRng;
use crate::labels::{generate_labels, label_of, label_width, lemma_label_is_word};
use crate::sampling::{pick_index, WeightRange};
use crate::tree::{
    branch_count, is_subtree, is_tree, labels_are_words, leaf_count, leaf_labels,
    lemma_binary_counts, new_leaf_weightless, new_node_weightless, new_root, weights_within,
    NewickNode,
};

verus! {

/// Why a tree could not be generated.
#[derive(Clone, Copy, Debug, PartialEq, Eq, Structural)]
pub enum GenerateError {
    /// Fewer than two leaves were asked for, or a sampling parameter is out of range.
    InvalidInput,
}

/// The labels of the first `k` leaves at width `w`, with multiplicity.
pub open spec fn label_bag(k: nat, w: nat) -> Multiset<Seq<char>>
    decreases k,
{
    if k == 0 {
        Multiset::empty()
    } else {
        label_bag((k - 1) as nat, w).insert(label_of((k - 1) as nat, w))
    }
}

/// The labels that a tree of `n` leaves carries.
pub open spec fn leaf_label_bag(n: nat) -> Multiset<Seq<char>> {
    label_bag(n, label_width(n))
}

/// The leaf labels of all trees in a forest, with multiplicity.
pub open spec fn forest_labels(s: Seq<NewickNode>) -> Multiset<Seq<char>>
    decreases s.len(),
{
    if s.len() == 0 {
        Multiset::empty()
    } else {
        forest_labels(s.drop_last()).add(leaf_labels(s.last()))
    }
}

/// A forest of subtrees with word labels and branch lengths in `[low, high)`.
pub open spec fn forest_ok(s: Seq<NewickNode>, low: u64, high: u64) -> bool {
    forall|k: int|
        0 <= k < s.len() ==> is_subtree(#[trigger] s[k]) && weights_within(s[k], low, high)
            && labels_are_words(s[k])
}

/// What a freshly generated tree of `n` leaves is: a root over `n` leaves
/// labelled as `generate_labels(n)` labels them, `n - 1` branching nodes,
/// and branch lengths drawn from `weights`.
pub open spec fn is_generated(t: NewickNode, n: nat, weights: WeightRange) -> bool {
    &&& is_tree(t)
    &&& leaf_labels(t) == leaf_label_bag(n)
    &&& leaf_count(t) == n
    &&& branch_count(t) + 1 == n
    &&& labels_are_words(t)
    &&& weights_within(t, weights.low, weights.high)
}

proof fn lemma_label_bag_len(k: nat, w: nat)
    ensures
        label_bag(k, w).len() == k,
    decreases k,
{
    if k > 0 {
        lemma_label_bag_len((k - 1) as nat, w);
    }
}

proof fn lemma_label_list_prefix(labels: Seq<Seq<char>>, k: nat, w: nat)
    requires
        k <= labels.len(),
        forall|j: int| 0 <= j < labels.len() ==> #[trigger] labels[j] == label_of(j as nat, w),
    ensures
        labels.take(k as int).to_multiset() == label_bag(k, w),
    decreases k,
{
    broadcast use vstd::seq_lib::to_multiset_build;

    if k == 0 {
        assert(labels.take(0) =~= Seq::<Seq<char>>::empty());
        vstd::seq_lib::to_multiset_len(labels.take(0));
        vstd::multiset::lemma_multiset_empty_len(labels.take(0).to_multiset());
    } else {
        lemma_label_list_prefix(labels, (k - 1) as nat, w);
        assert(labels.take(k as int) =~= labels.take(k - 1).push(labels[k - 1]));
    }
}

/// The leaves of a tree generated over `n` leaves carry exactly the labels
/// that `generate_labels(n)` lists, each once.
pub proof fn lemma_generated_labels_match(t: NewickNode, n: nat, labels: Seq<Seq<char>>)
    requires
        leaf_labels(t) == leaf_label_bag(n),
        labels.len() == n,
        forall|j: int| 0 <= j < n ==> #[trigger] labels[j] == label_of(j as nat, label_width(n)),
    ensures
        leaf_labels(t) == labels.to_multiset(),
{
    lemma_label_list_prefix(labels, n, label_width(n));
    assert(labels.take(n as int) =~= labels);
}

proof fn lemma_forest_update(s: Seq<NewickNode>, i: int, x: NewickNode)
    requires
        0 <= i < s.len(),
    ensures
        forest_labels(s.update(i, x)).add(leaf_labels(s[i])) =~= forest_labels(s).add(
            leaf_labels(x),
        ),
    decreases s.len(),
{
    broadcast use vstd::multiset::group_multiset_axioms;

    let u = s.update(i, x);
    let (a, b) = (leaf_labels(s[i]), leaf_labels(x));
    assert(forest_labels(u) == forest_labels(u.drop_last()).add(leaf_labels(u.last())));
    assert(forest_labels(s) == forest_labels(s.drop_last()).add(leaf_labels(s.last())));
    if i == s.len() - 1 {
        assert(u.drop_last() =~= s.drop_last());
        let rest = forest_labels(s.drop_last());
        assert(forest_labels(u) == rest.add(b));
        assert(forest_labels(s) == rest.add(a));
        assert(rest.add(b).add(a) =~= rest.add(a).add(b));
    } else {
        let t = s.drop_last();
        assert(u.drop_last() =~= t.update(i, x));
        assert(t[i] == s[i]);
        lemma_forest_update(t, i, x);
        let c = leaf_labels(s.last());
        assert(forest_labels(u) == forest_labels(t.update(i, x)).add(c));
        assert(forest_labels(t.update(i, x)).add(a) == forest_labels(t).add(b));
        assert(forest_labels(t.update(i, x)).add(c).add(a) =~= forest_labels(t.update(i, x)).add(a).add(c));
        assert(forest_labels(t).add(b).add(c) =~= forest_labels(t).add(c).add(b));
    }
}

/// Swap-removing item `i` takes exactly its labels out of the forest.
proof fn lemma_forest_swap_remove(s: Seq<NewickNode>, i: int)
    requires
        0 <= i < s.len(),
    ensures
        forest_labels(s.update(i, s.last()).drop_last()).add(leaf_labels(s[i])) =~= forest_labels(
            s,
        ),
{
    let t = s.drop_last();
    if i == s.len() - 1 {
        assert(s.update(i, s.last()).drop_last() =~= t);
    } else {
        assert(s.update(i, s.last()).drop_last() =~= t.update(i, s.last()));
        lemma_forest_update(t, i, s.last());
    }
}

/// A leaf whose branch length is drawn from `weights`.
pub fn new_leaf(l: String, weights: &WeightRange, rng: &mut StdRng) -> (r: NewickNode)
    requires
        weights.valid(),
    ensures
        r matches NewickNode::Leaf { weight, label } && label == l && weights.holds(weight),
{
    let w = weights.sample(rng);
    new_leaf_weightless(l, w)
}

/// An internal node over `lc` and `rc` whose branch length is drawn from `weights`.
pub fn new_node(lc: NewickNode, rc: NewickNode, weights: &WeightRange, rng: &mut StdRng) -> (r:
    NewickNode)
    requires
        weights.valid(),
    ensures
        r matches NewickNode::Node { left_child, right_child, weight } && *left_child == lc
            && *right_child == rc && weights.holds(weight),
{
    let w = weights.sample(rng);
    new_node_weightless(lc, rc, w)
}

/// Builds a random rooted binary tree over `tree_size` labelled leaves by
/// joining two distinct subtrees, chosen uniformly, until two remain, which
/// become the children of the root.
pub fn gen_tree(tree_size: u64, weights: &WeightRange, rng: &mut StdRng) -> (r: Result<
    NewickNode,
    GenerateError,
>)
    ensures
        r is Ok <==> tree_size >= 2 && weights.valid(),
        r matches Err(e) ==> e == GenerateError::InvalidInput,
        r matches Ok(t) ==> is_generated(t, tree_size as nat, *weights),
{
    if tree_size < 2 || !weights.is_valid() {
        return Err(GenerateError::InvalidInput);
    }
    let labels = generate_labels(tree_size);
    let ghost width = label_width(tree_size as nat);
    let mut forest: Vec<NewickNode> = Vec::new();
    let mut k: usize = 0;
    while k < labels.len()
        invariant
            weights.valid(),
            k <= labels@.len(),
            labels@.len() == tree_size,
            forall|j: int|
                0 <= j < tree_size ==> #[trigger] labels@[j]@ == label_of(j as nat, width),
            forest@.len() == k,
            forest_ok(forest@, weights.low, weights.high),
            forest_labels(forest@) =~= label_bag(k as nat, width),
        decreases labels@.len() - k,
    {
        let ghost before = forest@;
        let leaf = new_leaf(labels[k].clone(), weights, rng);
        proof {
            lemma_label_is_word(k as nat, width);
        }
        forest.push(leaf);
        proof {
            assert(forest@.drop_last() =~= before);
        }
        k = k + 1;
    }
    while forest.len() > 2
        invariant
            weights.valid(),
            forest@.len() >= 2,
            forest_ok(forest@, weights.low, weights.high),
            forest_labels(forest@) =~= leaf_label_bag(tree_size as nat),
        decreases forest@.len(),
    {
        let ghost s0 = forest@;
        let first = pick_index(rng, forest.len());
        let l1 = forest.swap_remove(first);
        let ghost s1 = forest@;
        let second = pick_index(rng, forest.len());
        let l2 = forest.swap_remove(second);
        let ghost s2 = forest@;
        let node = new_node(l1, l2, weights, rng);
        forest.push(node);
        proof {
            lemma_forest_swap_remove(s0, first as int);
            lemma_forest_swap_remove(s1, second as int);
            assert(forest@.drop_last() =~= s2);
            assert(forall|j: int| 0 <= j < s1.len() ==> #[trigger] s1[j] == s0[j] || s1[j] == s0.last());
            assert(forall|j: int| 0 <= j < s2.len() ==> #[trigger] s2[j] == s1[j] || s2[j] == s1.last());
        }
    }
    let ghost s = forest@;
    let right = forest.pop().unwrap();
    let left = forest.pop().unwrap();
    let t = new_root(left, right);
    proof {
        assert(s.drop_last().drop_last() =~= Seq::<NewickNode>::empty());
        assert(s[0] == left && s[1] == right);
        assert(forest_labels(s.drop_last()) =~= forest_labels(s.drop_last().drop_last()).add(
            leaf_labels(left),
        ));
        assert(leaf_labels(t) =~= leaf_label_bag(tree_size as nat));
        lemma_binary_counts(t);
        lemma_label_bag_len(tree_size as nat, width);
        assert(is_tree(t));
        assert(labels_are_words(t));
        assert(weights_within(t, weights.low, weights.high));
    }
    Ok(t)
}

} // verus!
