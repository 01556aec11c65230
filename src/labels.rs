use vstd::prelude::*;
use crate::text::push_char;
use crate::tree::is_word;

verus! {

/// Number of letters in the alphabet the labels are written in.
pub const ALPHABET: u64 = 26;

pub open spec fn pow26(w: nat) -> nat
    decreases w,
{
    if w == 0 {
        1
    } else {
        26 * pow26((w - 1) as nat)
    }
}

/// The lowercase letter for digit `d` (`0` is `'a'`).
pub open spec fn letter(d: nat) -> char {
    ((97 + d) as u8) as char
}

/// The label of leaf `i`: its base-26 digits, most significant first,
/// padded on the left with `'a'` to `w` letters.
pub open spec fn label_of(i: nat, w: nat) -> Seq<char>
    decreases w,
{
    if w == 0 {
        seq![]
    } else {
        label_of(i / 26, (w - 1) as nat).push(letter(i % 26))
    }
}

proof fn lemma_pow26_grows(w: nat)
    ensures
        pow26(w) >= 1,
        pow26(w) >= w,
    decreases w,
{
    if w > 0 {
        lemma_pow26_grows((w - 1) as nat);
    }
}

/// The smallest width from `w` on whose labels tell `n` leaves apart.
pub open spec fn width_from(n: nat, w: nat) -> nat
    decreases n - w via width_from_decreases
{
    if n <= pow26(w) {
        w
    } else {
        width_from(n, w + 1)
    }
}

#[via_fn]
proof fn width_from_decreases(n: nat, w: nat) {
    lemma_pow26_grows(w);
}

/// Width of the labels for `n` leaves: the smallest `w >= 1` with `26^w >= n`.
pub open spec fn label_width(n: nat) -> nat {
    width_from(n, 1)
}

proof fn lemma_width_from(n: nat, w: nat)
    requires
        w >= 1,
    ensures
        width_from(n, w) >= w,
        n <= pow26(width_from(n, w)),
    decreases n - w,
{
    lemma_pow26_grows(w);
    if n > pow26(w) {
        lemma_width_from(n, w + 1);
    }
}

proof fn lemma_letter_digit(d: nat)
    requires
        d < 26,
    ensures
        letter(d) as u32 == 97 + d,
{
}

proof fn lemma_label_len(i: nat, w: nat)
    ensures
        label_of(i, w).len() == w,
    decreases w,
{
    if w > 0 {
        lemma_label_len(i / 26, (w - 1) as nat);
    }
}

pub proof fn lemma_label_is_word(i: nat, w: nat)
    ensures
        is_word(label_of(i, w)),
    decreases w,
{
    if w > 0 {
        let w1 = (w - 1) as nat;
        lemma_label_is_word(i / 26, w1);
        lemma_letter_digit(i % 26);
        lemma_label_len(i / 26, w1);
    }
}

/// Labels of the same width are equal only for equal leaf numbers below `26^w`.
pub proof fn lemma_label_injective(i: nat, j: nat, w: nat)
    requires
        i < pow26(w),
        j < pow26(w),
        label_of(i, w) == label_of(j, w),
    ensures
        i == j,
    decreases w,
{
    if w > 0 {
        let w1 = (w - 1) as nat;
        let (a, b) = (label_of(i / 26, w1), label_of(j / 26, w1));
        assert(a.push(letter(i % 26)).last() == b.push(letter(j % 26)).last());
        lemma_letter_digit(i % 26);
        lemma_letter_digit(j % 26);
        assert(a =~= a.push(letter(i % 26)).drop_last());
        assert(b =~= b.push(letter(j % 26)).drop_last());
        assert(i / 26 < pow26(w1)) by (nonlinear_arith)
            requires
                i < 26 * pow26(w1),
        ;
        assert(j / 26 < pow26(w1)) by (nonlinear_arith)
            requires
                j < 26 * pow26(w1),
        ;
        lemma_label_injective(i / 26, j / 26, w1);
    }
}

/// The labels for `n` leaves are pairwise distinct.
pub proof fn lemma_labels_distinct(n: nat, i: nat, j: nat)
    requires
        i < n,
        j < n,
        i != j,
    ensures
        label_of(i, label_width(n)) != label_of(j, label_width(n)),
{
    lemma_width_from(n, 1);
    if label_of(i, label_width(n)) == label_of(j, label_width(n)) {
        lemma_label_injective(i, j, label_width(n));
    }
}

fn push_label(s: &mut String, i: u64, w: u32)
    ensures
        final(s)@ == old(s)@ + label_of(i as nat, w as nat),
    decreases w,
{
    if w > 0 {
        push_label(s, i / ALPHABET, w - 1);
        let c: char = ((i % ALPHABET) as u8 + 97u8) as char;
        push_char(s, c);
        assert(final(s)@ =~= old(s)@ + label_of(i as nat, w as nat));
    } else {
        assert(final(s)@ =~= old(s)@ + label_of(i as nat, w as nat));
    }
}

/// The labels of `count` leaves, in leaf order: fixed-width base-26 numbers
/// written in lowercase letters, at least one letter wide.
pub fn generate_labels(count: u64) -> (r: Vec<String>)
    ensures
        r@.len() == count,
        forall|j: int| 0 <= j < count ==> #[trigger] r@[j]@ == label_of(j as nat, label_width(count as nat)),
        forall|j: int| 0 <= j < count ==> #[trigger] r@[j]@.len() == label_width(count as nat),
        forall|i: int, j: int| 0 <= i < count && 0 <= j < count && i != j ==> #[trigger] r@[i]@ != #[trigger] r@[j]@,
{
    let mut width: u32 = 1;
    let mut span: u128 = 26;
    proof {
        reveal_with_fuel(pow26, 2);
    }
    while span < count as u128
        invariant
            width >= 1,
            span == pow26(width as nat),
            span <= 26 * (u64::MAX as u128),
            width <= 14,
            width_from(count as nat, width as nat) == label_width(count as nat),
        decreases 26 * (u64::MAX as int) - span as int,
    {
        proof {
            lemma_pow26_grows(width as nat);
            reveal_with_fuel(pow26, 15);
            assert(pow26(14) > u64::MAX);
            if width >= 14 {
                lemma_pow26_mono(14, width as nat);
            }
        }
        span = span * 26;
        width = width + 1;
    }
    let mut labels: Vec<String> = Vec::new();
    let mut i: u64 = 0;
    while i < count
        invariant
            i <= count,
            labels@.len() == i,
            width as nat == label_width(count as nat),
            forall|j: int| 0 <= j < i ==> #[trigger] labels@[j]@ == label_of(j as nat, width as nat),
        decreases count - i,
    {
        let mut label = String::new();
        push_label(&mut label, i, width);
        assert(label@ =~= label_of(i as nat, width as nat));
        labels.push(label);
        i = i + 1;
    }
    proof {
        assert forall|j: int| 0 <= j < count implies #[trigger] labels@[j]@.len() == label_width(count as nat) by {
            lemma_label_len(j as nat, width as nat);
        }
        assert forall|a: int, b: int| 0 <= a < count && 0 <= b < count && a != b implies #[trigger] labels@[a]@ != #[trigger] labels@[b]@ by {
            lemma_labels_distinct(count as nat, a as nat, b as nat);
        }
    }
    labels
}

proof fn lemma_pow26_mono(a: nat, b: nat)
    requires
        a <= b,
    ensures
        pow26(a) <= pow26(b),
    decreases b - a,
{
    if a < b {
        lemma_pow26_mono(a, (b - 1) as nat);
        lemma_pow26_grows((b - 1) as nat);
    }
}

} // verus!
