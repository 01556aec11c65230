use vstd::prelude::*;
use rand::rngs::StdRng;
use crate::builder::{gen_tree, leaf_label_bag, GenerateError};
use crate::sampling::WeightRange;
use crate::tree::{
    branch_count, is_tree, labels_are_words, leaf_labels, lemma_internal_counts,
    paths_sum_to, weights_within, NewickNode,
};
use crate::ultrametric::{
    fractions_valid, lemma_ultra_keeps_shape, lemma_ultrametric_paths, make_ultrametric,
    FRACTION_SCALE,
};

verus! {

/// Whether every fraction lies in `[0, 1]`.
pub fn check_fractions(fractions: &Vec<u32>) -> (r: bool)
    ensures
        r == fractions_valid(fractions@),
{
    let mut k: usize = 0;
    while k < fractions.len()
        invariant
            k <= fractions@.len(),
            forall|j: int| 0 <= j < k ==> #[trigger] fractions@[j] <= FRACTION_SCALE,
        decreases fractions@.len() - k,
    {
        if fractions[k] as u64 > FRACTION_SCALE {
            return false;
        }
        k = k + 1;
    }
    true
}

/// Whether `generate` accepts these parameters.
pub open spec fn generate_accepts(
    leaf_count: nat,
    weights: WeightRange,
    ultrametric: bool,
    fractions: Seq<u32>,
) -> bool {
    &&& leaf_count >= 2
    &&& weights.valid()
    &&& ultrametric ==> fractions.len() + 2 >= leaf_count && fractions_valid(fractions)
}

/// Generates a random tree over `leaf_count` leaves with branch lengths
/// drawn from `weights`. With `ultrametric`, the tree is then rescaled so
/// that every leaf lies `height` below the root: its internal nodes, in
/// preorder, take the fractions of `fractions` in turn (one for each of
/// the `leaf_count - 2` internal nodes).
pub fn generate(
    leaf_count: u64,
    weights: &WeightRange,
    ultrametric: bool,
    height: u64,
    fractions: &Vec<u32>,
    rng: &mut StdRng,
) -> (r: Result<NewickNode, GenerateError>)
    ensures
        r is Ok <==> generate_accepts(leaf_count as nat, *weights, ultrametric, fractions@),
        r matches Err(e) ==> e == GenerateError::InvalidInput,
        r matches Ok(t) ==> {
            &&& is_tree(t)
            &&& leaf_labels(t) == leaf_label_bag(leaf_count as nat)
            &&& crate::tree::leaf_count(t) == leaf_count
            &&& branch_count(t) + 1 == leaf_count
            &&& labels_are_words(t)
            &&& !ultrametric ==> weights_within(t, weights.low, weights.high)
            &&& ultrametric ==> paths_sum_to(t, height as int)
        },
{
    if ultrametric && leaf_count >= 2 && (fractions.len() as u64) < leaf_count - 2 {
        return Err(GenerateError::InvalidInput);
    }
    if ultrametric && !check_fractions(fractions) {
        return Err(GenerateError::InvalidInput);
    }
    let tree = gen_tree(leaf_count, weights, rng)?;
    if !ultrametric {
        return Ok(tree);
    }
    let ghost base = tree;
    proof {
        lemma_internal_counts(base);
    }
    let mut next: usize = 0;
    let t = make_ultrametric(tree, height, fractions, &mut next);
    proof {
        lemma_ultra_keeps_shape(base, height as nat, fractions@, 0);
        lemma_ultrametric_paths(base, height as nat, fractions@, 0);
    }
    Ok(t)
}

} // verus!
