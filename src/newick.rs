use vstd::prelude::*;
use crate::text::push_char;
use crate::tree::{branch_count, is_tree, is_word, labels_are_words, leaf_count, lemma_binary_counts, NewickNode};

verus! {

/// Weights are written with this many ten-thousandths to the unit.
pub const WEIGHT_SCALE: u64 = 10000;

/// The ASCII digit for `d` below ten.
pub open spec fn digit(d: nat) -> char {
    ((48 + d) as u8) as char
}

/// `n` in decimal, without leading zeros.
pub open spec fn decimal(n: nat) -> Seq<char>
    decreases n,
{
    if n < 10 {
        seq![digit(n)]
    } else {
        decimal(n / 10).push(digit(n % 10))
    }
}

/// A weight in ten-thousandths written with exactly four decimals.
pub open spec fn weight_text(w: nat) -> Seq<char> {
    decimal(w / 10000) + seq!['.', digit(w / 1000 % 10), digit(w / 100 % 10), digit(w / 10 % 10), digit(w % 10)]
}

/// The Newick text of `t`.
pub open spec fn newick(t: NewickNode) -> Seq<char>
    decreases t,
{
    match t {
        NewickNode::Leaf { weight, label } => label@ + seq![':'] + weight_text(weight as nat),
        NewickNode::Node { left_child, right_child, weight } => seq!['('] + newick(*left_child)
            + seq![','] + newick(*right_child) + seq![')', ':'] + weight_text(weight as nat),
        NewickNode::Root { left_child, right_child } => seq!['('] + newick(*left_child) + seq![
            ',',
        ] + newick(*right_child) + seq![')', ';'],
    }
}

/// How many times `c` occurs in `s`.
pub open spec fn count_char(s: Seq<char>, c: char) -> nat
    decreases s.len(),
{
    if s.len() == 0 {
        0
    } else {
        count_char(s.drop_last(), c) + if s.last() == c {
            1nat
        } else {
            0nat
        }
    }
}

proof fn lemma_count_concat(a: Seq<char>, b: Seq<char>, c: char)
    ensures
        count_char(a + b, c) == count_char(a, c) + count_char(b, c),
    decreases b.len(),
{
    if b.len() == 0 {
        assert(a + b =~= a);
    } else {
        assert((a + b).drop_last() =~= a + b.drop_last());
        lemma_count_concat(a, b.drop_last(), c);
    }
}

/// A character outside a text does not occur in it.
proof fn lemma_count_absent(s: Seq<char>, c: char)
    requires
        forall|k: int| 0 <= k < s.len() ==> s[k] != c,
    ensures
        count_char(s, c) == 0,
    decreases s.len(),
{
    if s.len() > 0 {
        lemma_count_absent(s.drop_last(), c);
    }
}

proof fn lemma_decimal_digits(n: nat)
    ensures
        forall|k: int| 0 <= k < decimal(n).len() ==> 48 <= (#[trigger] decimal(n)[k]) as u32 <= 57,
    decreases n,
{
    let s = decimal(n);
    if n >= 10 {
        lemma_decimal_digits(n / 10);
        let d = (n % 10) as nat;
        assert(digit(d) as u32 == 48 + d);
        assert forall|k: int| 0 <= k < s.len() implies 48 <= (#[trigger] s[k]) as u32 <= 57 by {
            if k < s.len() - 1 {
                assert(s[k] == decimal(n / 10)[k]);
            }
        }
    } else {
        assert(digit(n) as u32 == 48 + n);
        assert(s[0] == digit(n));
    }
}

/// Neither a weight nor a word holds a parenthesis.
proof fn lemma_no_parens(s: Seq<char>)
    requires
        forall|k: int| 0 <= k < s.len() ==> (#[trigger] s[k]) as u32 >= 46,
    ensures
        count_char(s, '(') == 0,
        count_char(s, ')') == 0,
{
    lemma_count_absent(s, '(');
    lemma_count_absent(s, ')');
}

proof fn lemma_leaf_text_counts(label: Seq<char>, w: nat)
    requires
        is_word(label),
    ensures
        count_char(label + seq![':'] + weight_text(w), '(') == 0,
        count_char(label + seq![':'] + weight_text(w), ')') == 0,
{
    lemma_decimal_digits(w / 10000);
    let wt = weight_text(w);
    assert forall|k: int| 0 <= k < wt.len() implies (#[trigger] wt[k]) as u32 >= 46 by {
        if k < decimal(w / 10000).len() {
            assert(wt[k] == decimal(w / 10000)[k]);
        }
    }
    let t = label + seq![':'] + wt;
    assert forall|k: int| 0 <= k < t.len() implies (#[trigger] t[k]) as u32 >= 46 by {
        if k < label.len() {
            assert(t[k] == label[k]);
        } else if k > label.len() {
            assert(t[k] == wt[k - label.len() - 1]);
        }
    }
    lemma_no_parens(t);
}

proof fn lemma_pair_counts(l: Seq<char>, r: Seq<char>, tail: Seq<char>, c: char)
    ensures
        count_char(seq!['('] + l + seq![','] + r + tail, c) == count_char(seq!['('], c)
            + count_char(l, c) + count_char(seq![','], c) + count_char(r, c) + count_char(tail, c),
{
    lemma_count_concat(seq!['('], l, c);
    lemma_count_concat(seq!['('] + l, seq![','], c);
    lemma_count_concat(seq!['('] + l + seq![','], r, c);
    lemma_count_concat(seq!['('] + l + seq![','] + r, tail, c);
}

proof fn lemma_single_count(a: char, c: char)
    ensures
        count_char(seq![a], c) == if a == c {
            1nat
        } else {
            0nat
        },
{
    assert(seq![a].drop_last() =~= Seq::<char>::empty());
    assert(count_char(Seq::<char>::empty(), c) == 0);
}

/// Each branching node writes one pair of parentheses, and nothing else does.
pub proof fn lemma_newick_parens(t: NewickNode)
    requires
        labels_are_words(t),
    ensures
        count_char(newick(t), '(') == branch_count(t),
        count_char(newick(t), ')') == branch_count(t),
    decreases t,
{
    match t {
        NewickNode::Leaf { weight, label } => {
            lemma_leaf_text_counts(label@, weight as nat);
        },
        NewickNode::Node { left_child, right_child, weight } => {
            lemma_newick_parens(*left_child);
            lemma_newick_parens(*right_child);
            let tail = seq![')', ':'] + weight_text(weight as nat);
            assert(newick(t) =~= seq!['('] + newick(*left_child) + seq![','] + newick(*right_child)
                + tail);
            lemma_pair_counts(newick(*left_child), newick(*right_child), tail, '(');
            lemma_pair_counts(newick(*left_child), newick(*right_child), tail, ')');
            lemma_leaf_text_counts(seq![], weight as nat);
            assert(seq![')', ':'] + weight_text(weight as nat) =~= seq![')'] + (Seq::<char>::empty()
                + seq![':'] + weight_text(weight as nat)));
            lemma_count_concat(seq![')'], Seq::<char>::empty() + seq![':'] + weight_text(weight as nat), '(');
            lemma_count_concat(seq![')'], Seq::<char>::empty() + seq![':'] + weight_text(weight as nat), ')');
            lemma_single_count('(', '(');
            lemma_single_count('(', ')');
            lemma_single_count(',', '(');
            lemma_single_count(',', ')');
            lemma_single_count(')', '(');
            lemma_single_count(')', ')');
        },
        NewickNode::Root { left_child, right_child } => {
            lemma_newick_parens(*left_child);
            lemma_newick_parens(*right_child);
            let tail = seq![')', ';'];
            lemma_pair_counts(newick(*left_child), newick(*right_child), tail, '(');
            lemma_pair_counts(newick(*left_child), newick(*right_child), tail, ')');
            assert(tail.drop_last() =~= seq![')']);
            lemma_single_count('(', '(');
            lemma_single_count('(', ')');
            lemma_single_count(',', '(');
            lemma_single_count(',', ')');
            lemma_single_count(')', '(');
            lemma_single_count(')', ')');
        },
    }
}

/// The text of a whole tree with word labels opens with `(`, closes with
/// `);`, and holds one pair of parentheses per branching node, that is one
/// fewer than it has leaves.
pub proof fn lemma_newick_shape(t: NewickNode)
    requires
        is_tree(t),
        labels_are_words(t),
    ensures
        newick(t).len() >= 3,
        newick(t)[0] == '(',
        newick(t)[newick(t).len() - 2] == ')',
        newick(t).last() == ';',
        count_char(newick(t), '(') + 1 == leaf_count(t),
        count_char(newick(t), ')') + 1 == leaf_count(t),
{
    lemma_newick_parens(t);
    lemma_binary_counts(t);
}

fn push_decimal(s: &mut String, n: u64)
    ensures
        final(s)@ == old(s)@ + decimal(n as nat),
    decreases n,
{
    if n >= 10 {
        push_decimal(s, n / 10);
    }
    push_char(s, ((n % 10) as u8 + 48u8) as char);
    assert(final(s)@ =~= old(s)@ + decimal(n as nat));
}

fn push_weight(s: &mut String, w: u64)
    ensures
        final(s)@ == old(s)@ + weight_text(w as nat),
{
    push_decimal(s, w / WEIGHT_SCALE);
    push_char(s, '.');
    push_char(s, ((w / 1000 % 10) as u8 + 48u8) as char);
    push_char(s, ((w / 100 % 10) as u8 + 48u8) as char);
    push_char(s, ((w / 10 % 10) as u8 + 48u8) as char);
    push_char(s, ((w % 10) as u8 + 48u8) as char);
    assert(final(s)@ =~= old(s)@ + weight_text(w as nat));
}

impl NewickNode {
    /// Appends the Newick text of this node to `out`.
    pub fn write_newick(&self, out: &mut String)
        ensures
            final(out)@ == old(out)@ + newick(*self),
        decreases self,
    {
        match self {
            NewickNode::Leaf { weight, label } => {
                out.append(label.as_str());
                push_char(out, ':');
                push_weight(out, *weight);
            },
            NewickNode::Node { left_child, right_child, weight } => {
                push_char(out, '(');
                left_child.write_newick(out);
                push_char(out, ',');
                right_child.write_newick(out);
                push_char(out, ')');
                push_char(out, ':');
                push_weight(out, *weight);
            },
            NewickNode::Root { left_child, right_child } => {
                push_char(out, '(');
                left_child.write_newick(out);
                push_char(out, ',');
                right_child.write_newick(out);
                push_char(out, ')');
                push_char(out, ';');
            },
        }
        assert(final(out)@ =~= old(out)@ + newick(*self));
    }

    /// The Newick text of this node: a function of the tree alone.
    pub fn to_newick(&self) -> (r: String)
        ensures
            r@ == newick(*self),
    {
        let mut out = String::new();
        self.write_newick(&mut out);
        assert(out@ =~= newick(*self));
        out
    }
}

} // verus!
