use newick_gen::builder::{gen_tree, new_leaf, new_node, GenerateError};
use newick_gen::generator::{check_fractions, generate};
use newick_gen::labels::generate_labels;
use newick_gen::sampling::{pick_index, WeightRange};
use newick_gen::tree::{new_leaf_weightless, new_node_weightless, new_root, NewickNode};
use newick_gen::ultrametric::make_ultrametric;
use rand::rngs::StdRng;
use rand::SeedableRng;

fn rng(seed: u64) -> StdRng {
    StdRng::seed_from_u64(seed)
}

fn leaves(t: &NewickNode, out: &mut Vec<(String, u64)>) {
    match t {
        NewickNode::Leaf { weight, label } => out.push((label.clone(), *weight)),
        NewickNode::Node { left_child, right_child, .. } | NewickNode::Root { left_child, right_child } => {
            leaves(left_child, out);
            leaves(right_child, out);
        }
    }
}

fn branching(t: &NewickNode) -> usize {
    match t {
        NewickNode::Leaf { .. } => 0,
        NewickNode::Node { left_child, right_child, .. } | NewickNode::Root { left_child, right_child } => {
            1 + branching(left_child) + branching(right_child)
        }
    }
}

/// Parses Newick text back into each leaf's label and total distance from the root.
fn leaf_depths(s: &str) -> Vec<(String, f64)> {
    let bytes: Vec<char> = s.chars().collect();
    let mut open: Vec<Vec<usize>> = vec![Vec::new()];
    let mut items: Vec<(String, f64)> = Vec::new();
    let mut i = 0;
    while i < bytes.len() {
        let c = bytes[i];
        if c == '(' {
            open.push(Vec::new());
            i += 1;
        } else if c == ')' {
            let members = open.pop().unwrap();
            i += 1;
            if i < bytes.len() && bytes[i] == ':' {
                let start = i + 1;
                let mut j = start;
                while j < bytes.len() && (bytes[j].is_ascii_digit() || bytes[j] == '.') {
                    j += 1;
                }
                let w: f64 = bytes[start..j].iter().collect::<String>().parse().unwrap();
                for &m in &members {
                    items[m].1 += w;
                }
                i = j;
            }
            open.last_mut().unwrap().extend(members);
        } else if c == ',' || c == ';' {
            i += 1;
        } else {
            let start = i;
            while bytes[i] != ':' {
                i += 1;
            }
            let label: String = bytes[start..i].iter().collect();
            let wstart = i + 1;
            let mut j = wstart;
            while j < bytes.len() && (bytes[j].is_ascii_digit() || bytes[j] == '.') {
                j += 1;
            }
            let w: f64 = bytes[wstart..j].iter().collect::<String>().parse().unwrap();
            items.push((label, w));
            open.last_mut().unwrap().push(items.len() - 1);
            i = j;
        }
    }
    items
}

#[test]
fn labels_for_one_leaf() {
    assert_eq!(generate_labels(1), vec!["a".to_string()]);
}

#[test]
fn labels_for_three_leaves() {
    assert_eq!(generate_labels(3), vec!["a".to_string(), "b".to_string(), "c".to_string()]);
}

#[test]
fn labels_for_no_leaves() {
    assert!(generate_labels(0).is_empty());
}

#[test]
fn labels_for_twenty_six_leaves_are_single_letters() {
    let l = generate_labels(26);
    assert_eq!(l.len(), 26);
    assert!(l.iter().all(|s| s.len() == 1));
    assert_eq!(l[25], "z");
}

#[test]
fn labels_for_twenty_seven_leaves_have_two_letters() {
    let l = generate_labels(27);
    assert_eq!(l.len(), 27);
    assert!(l.iter().any(|s| s.len() == 2));
    assert_eq!(l[0], "aa");
    assert_eq!(l[1], "ab");
    assert_eq!(l[26], "ba");
}

#[test]
fn labels_are_pairwise_distinct() {
    let l = generate_labels(700);
    let mut sorted = l.clone();
    sorted.sort();
    sorted.dedup();
    assert_eq!(sorted.len(), 700);
    assert_eq!(l[676], "baa");
}

#[test]
fn leaf_text_has_four_decimals() {
    let t = new_leaf_weightless("x".to_string(), 12345);
    assert_eq!(t.to_newick(), "x:1.2345");
    let t = new_leaf_weightless("y".to_string(), 5);
    assert_eq!(t.to_newick(), "y:0.0005");
    let t = new_leaf_weightless("z".to_string(), 1234560000);
    assert_eq!(t.to_newick(), "z:123456.0000");
}

#[test]
fn whole_tree_text() {
    let inner = new_node_weightless(
        new_leaf_weightless("a".to_string(), 1000),
        new_leaf_weightless("b".to_string(), 20000),
        300,
    );
    let t = new_root(inner, new_leaf_weightless("c".to_string(), 99999));
    assert_eq!(t.to_newick(), "((a:0.1000,b:2.0000):0.0300,c:9.9999);");
}

#[test]
fn serialize_twice_gives_the_same_text() {
    let t = generate(12, &WeightRange::unit(), false, 10000, &Vec::new(), &mut rng(3)).unwrap();
    assert_eq!(t.to_newick(), t.to_newick());
}

#[test]
fn two_leaves_give_a_and_b() {
    let w = WeightRange { low: 1, high: 10000 };
    let t = generate(2, &w, false, 10000, &Vec::new(), &mut rng(1)).unwrap();
    let s = t.to_newick();
    assert!(s.starts_with("(a:"), "{}", s);
    assert!(s.ends_with(");"));
    let body = &s[1..s.len() - 2];
    let parts: Vec<&str> = body.split(',').collect();
    assert_eq!(parts.len(), 2);
    for (p, name) in parts.iter().zip(["a", "b"]) {
        let (label, weight) = p.split_once(':').unwrap();
        assert_eq!(label, name);
        let (_, frac) = weight.split_once('.').unwrap();
        assert_eq!(frac.len(), 4);
        assert!(weight.parse::<f64>().unwrap() > 0.0);
    }
}

#[test]
fn three_leaf_ultrametric_tree_has_unit_height() {
    let t = generate(3, &WeightRange::unit(), true, 10000, &vec![285714], &mut rng(5)).unwrap();
    let s = t.to_newick();
    let depths = leaf_depths(&s);
    assert_eq!(depths.len(), 3);
    for (_, d) in depths {
        assert_eq!(format!("{:.4}", d), "1.0000", "{}", s);
    }
}

#[test]
fn ultrametric_paths_reach_the_height() {
    for n in 2..40u64 {
        let fr: Vec<u32> = (0..n).map(|k| ((k * 123457) % 1000001) as u32).collect();
        let t = generate(n, &WeightRange::unit(), true, 37000, &fr, &mut rng(n)).unwrap();
        for (_, d) in leaf_depths(&t.to_newick()) {
            assert_eq!(format!("{:.4}", d), "3.7000");
        }
    }
}

#[test]
fn one_or_no_leaves_is_invalid_input() {
    let w = WeightRange::unit();
    assert_eq!(generate(1, &w, false, 10000, &Vec::new(), &mut rng(1)).unwrap_err(), GenerateError::InvalidInput);
    assert_eq!(generate(0, &w, false, 10000, &Vec::new(), &mut rng(1)).unwrap_err(), GenerateError::InvalidInput);
    assert_eq!(gen_tree(1, &w, &mut rng(1)).unwrap_err(), GenerateError::InvalidInput);
    assert_eq!(gen_tree(0, &w, &mut rng(1)).unwrap_err(), GenerateError::InvalidInput);
}

#[test]
fn empty_weight_range_is_invalid_input() {
    let w = WeightRange { low: 5, high: 5 };
    assert_eq!(generate(4, &w, false, 10000, &Vec::new(), &mut rng(1)).unwrap_err(), GenerateError::InvalidInput);
}

#[test]
fn missing_or_oversized_fractions_are_invalid_input() {
    let w = WeightRange::unit();
    assert_eq!(generate(5, &w, true, 10000, &vec![1, 2], &mut rng(1)).unwrap_err(), GenerateError::InvalidInput);
    assert_eq!(
        generate(3, &w, true, 10000, &vec![1000001], &mut rng(1)).unwrap_err(),
        GenerateError::InvalidInput
    );
    assert!(generate(5, &w, false, 10000, &vec![1, 2], &mut rng(1)).is_ok());
}

#[test]
fn check_fractions_bounds() {
    assert!(check_fractions(&vec![0, 1000000]));
    assert!(!check_fractions(&vec![0, 1000001]));
    assert!(check_fractions(&Vec::new()));
}

#[test]
fn generated_tree_has_all_labels_and_counts() {
    for n in 2..60u64 {
        let t = gen_tree(n, &WeightRange::unit(), &mut rng(n)).unwrap();
        assert!(matches!(t, NewickNode::Root { .. }));
        let mut ls = Vec::new();
        leaves(&t, &mut ls);
        assert_eq!(ls.len() as u64, n);
        assert_eq!(branching(&t) as u64, n - 1);
        let mut got: Vec<String> = ls.iter().map(|p| p.0.clone()).collect();
        got.sort();
        let mut want = generate_labels(n);
        want.sort();
        assert_eq!(got, want);
        assert!(ls.iter().all(|p| p.1 < 10000));
    }
}

#[test]
fn text_has_one_paren_pair_per_branching_node() {
    for n in 2..50u64 {
        let t = generate(n, &WeightRange::unit(), false, 10000, &Vec::new(), &mut rng(n + 100)).unwrap();
        let s = t.to_newick();
        assert!(s.starts_with('(') && s.ends_with(");"));
        assert_eq!(s.matches('(').count() as u64, n - 1);
        assert_eq!(s.matches(')').count() as u64, n - 1);
        assert!(!s.contains(' '));
    }
}

#[test]
fn ultrametric_fixed_fraction_exact_text() {
    let inner = new_node_weightless(
        new_leaf_weightless("a".to_string(), 1),
        new_leaf_weightless("b".to_string(), 2),
        3,
    );
    let t = new_root(inner, new_leaf_weightless("c".to_string(), 4));
    let mut next = 0usize;
    let u = make_ultrametric(t, 10000, &vec![500000], &mut next);
    assert_eq!(next, 1);
    assert_eq!(u.to_newick(), "((a:0.5000,b:0.5000):0.5000,c:1.0000);");
}

#[test]
fn ultrametric_rounds_shares_down() {
    let inner = new_node_weightless(
        new_leaf_weightless("a".to_string(), 1),
        new_leaf_weightless("b".to_string(), 2),
        3,
    );
    let t = new_root(new_leaf_weightless("c".to_string(), 4), inner);
    let mut next = 2usize;
    let u = make_ultrametric(t, 7, &vec![0, 0, 333333], &mut next);
    assert_eq!(next, 3);
    assert_eq!(u.to_newick(), "(c:0.0007,(a:0.0005,b:0.0005):0.0002);");
}

#[test]
fn weights_are_drawn_from_the_range() {
    let w = WeightRange { low: 100, high: 200 };
    let mut r = rng(9);
    let draws: Vec<u64> = (0..200).map(|_| w.sample(&mut r)).collect();
    assert!(draws.iter().all(|&d| (100..200).contains(&d)));
    assert!(draws.iter().any(|&d| d != 100));
    assert!(draws.iter().any(|&d| d != 199));
}

#[test]
fn picked_indices_stay_in_bounds() {
    let mut r = rng(11);
    let picks: Vec<usize> = (0..200).map(|_| pick_index(&mut r, 7)).collect();
    assert!(picks.iter().all(|&p| p < 7));
    assert!(picks.iter().any(|&p| p != 0));
}

#[test]
fn drawn_leaf_and_node_weights() {
    let w = WeightRange { low: 3, high: 4 };
    let mut r = rng(2);
    let a = new_leaf("a".to_string(), &w, &mut r);
    let b = new_leaf("b".to_string(), &w, &mut r);
    let n = new_node(a, b, &w, &mut r);
    assert_eq!(n.to_newick(), "(a:0.0003,b:0.0003):0.0003");
}
