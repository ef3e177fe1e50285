//! Hamming distance, stretched to texts of different lengths.
use vstd::prelude::*;
use crate::levenshtein::chars_of;

verus! {

/// Number of positions below `n` where `a` and `b` differ.
pub open spec fn mismatches(a: Seq<char>, b: Seq<char>, n: int) -> nat
    decreases n,
{
    if n <= 0 {
        0
    } else {
        mismatches(a, b, n - 1) + if a[n - 1] != b[n - 1] {
            1nat
        } else {
            0nat
        }
    }
}

/// Hamming distance of `a` and `b`: the positions of the shorter text where
/// the two differ, plus one for each character by which the longer one is longer.
pub open spec fn hamming(a: Seq<char>, b: Seq<char>) -> nat {
    if a.len() <= b.len() {
        mismatches(a, b, a.len() as int) + (b.len() - a.len()) as nat
    } else {
        mismatches(a, b, b.len() as int) + (a.len() - b.len()) as nat
    }
}

proof fn lemma_mismatches_bound(a: Seq<char>, b: Seq<char>, n: int)
    requires
        0 <= n,
    ensures
        mismatches(a, b, n) <= n,
    decreases n,
{
    if n > 0 {
        lemma_mismatches_bound(a, b, n - 1);
    }
}

/// Hamming distance: the number of positions at which `str1` and `str2`
/// hold different characters, where each character of the longer text past
/// the end of the shorter one counts as a difference.
pub fn hamming_distance(str1: &str, str2: &str) -> (r: usize)
    ensures
        r == hamming(str1@, str2@),
{
    let a = chars_of(str1);
    let b = chars_of(str2);
    let (shortest, longest) = if a.len() < b.len() {
        (&a, &b)
    } else {
        (&b, &a)
    };
    let str_len_delta: usize = longest.len() - shortest.len();
    let mut delta: usize = 0;
    let mut i: usize = 0;
    while i < shortest.len()
        invariant
            i <= shortest@.len() <= longest@.len(),
            delta == mismatches(shortest@, longest@, i as int),
        decreases shortest@.len() - i,
    {
        proof {
            lemma_mismatches_bound(shortest@, longest@, i as int);
        }
        if shortest[i] != longest[i] {
            delta = delta + 1;
        }
        i = i + 1;
    }
    proof {
        lemma_mismatches_bound(shortest@, longest@, i as int);
        lemma_mismatches_swap(a@, b@, a@.len() as int);
        lemma_mismatches_swap(a@, b@, b@.len() as int);
    }
    delta + str_len_delta
}

proof fn lemma_mismatches_swap(a: Seq<char>, b: Seq<char>, n: int)
    ensures
        mismatches(a, b, n) == mismatches(b, a, n),
    decreases n,
{
    if n > 0 {
        lemma_mismatches_swap(a, b, n - 1);
    }
}

} // verus!
