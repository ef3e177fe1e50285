//! The mathematical definitions of the edit distances, by the classic
//! recurrences over prefixes, and the laws that relate them.
use vstd::prelude::*;

verus! {

/// Cost of aligning `x` with `y`: nothing when they are equal, one substitution otherwise.
pub open spec fn subst_cost(x: char, y: char) -> nat {
    if x == y {
        0
    } else {
        1
    }
}

pub open spec fn min_nat(x: nat, y: nat) -> nat {
    if x <= y {
        x
    } else {
        y
    }
}

pub open spec fn min3_nat(x: nat, y: nat, z: nat) -> nat {
    min_nat(min_nat(x, y), z)
}

/// Levenshtein distance between the first `i` characters of `a` and the
/// first `j` characters of `b` (insertion, deletion and substitution, each of cost one).
pub open spec fn lev_prefix(a: Seq<char>, b: Seq<char>, i: nat, j: nat) -> nat
    decreases i + j,
{
    if i == 0 {
        j
    } else if j == 0 {
        i
    } else {
        min3_nat(
            lev_prefix(a, b, (i - 1) as nat, j) + 1,
            lev_prefix(a, b, i, (j - 1) as nat) + 1,
            lev_prefix(a, b, (i - 1) as nat, (j - 1) as nat) + subst_cost(a[i - 1], b[j - 1]),
        )
    }
}

/// Levenshtein distance between `a` and `b`.
pub open spec fn levenshtein(a: Seq<char>, b: Seq<char>) -> nat {
    lev_prefix(a, b, a.len(), b.len())
}

/// The last two characters of the prefix `a[..i]` are those of `b[..j]` swapped.
pub open spec fn adjacent_swap(a: Seq<char>, b: Seq<char>, i: nat, j: nat) -> bool {
    i >= 2 && j >= 2 && a[i - 1] == b[j - 2] && a[i - 2] == b[j - 1]
}

/// Optimal string alignment distance between `a[..i]` and `b[..j]`: Levenshtein
/// with the swap of two adjacent characters as one more operation, where no
/// substring is edited twice.
pub open spec fn osa_prefix(a: Seq<char>, b: Seq<char>, i: nat, j: nat) -> nat
    decreases i + j,
{
    if i == 0 {
        j
    } else if j == 0 {
        i
    } else {
        let cost = subst_cost(a[i - 1], b[j - 1]);
        let best = min3_nat(
            osa_prefix(a, b, (i - 1) as nat, j) + 1,
            osa_prefix(a, b, i, (j - 1) as nat) + 1,
            osa_prefix(a, b, (i - 1) as nat, (j - 1) as nat) + cost,
        );
        if adjacent_swap(a, b, i, j) {
            min_nat(best, osa_prefix(a, b, (i - 2) as nat, (j - 2) as nat) + cost)
        } else {
            best
        }
    }
}

/// Optimal string alignment distance between `a` and `b`.
pub open spec fn osa(a: Seq<char>, b: Seq<char>) -> nat {
    osa_prefix(a, b, a.len(), b.len())
}

/// The largest index `p < n` with `s[p] == c`, or -1 when there is none.
pub open spec fn last_index_of(s: Seq<char>, c: char, n: int) -> int
    decreases n,
{
    if n <= 0 {
        -1
    } else if s[n - 1] == c {
        n - 1
    } else {
        last_index_of(s, c, n - 1)
    }
}

/// `last_index_of` lies below `n`, points at `c`, and no later position
/// below `n` holds `c`.
pub proof fn lemma_last_index_of(s: Seq<char>, c: char, n: int)
    ensures
        -1 <= last_index_of(s, c, n) < if n > 0 { n } else { 0 },
        0 <= last_index_of(s, c, n) ==> s[last_index_of(s, c, n)] == c,
        forall|p: int| last_index_of(s, c, n) < p < n ==> s[p] != c,
    decreases n,
{
    if n > 0 && s[n - 1] != c {
        lemma_last_index_of(s, c, n - 1);
    }
}

/// Unrestricted Damerau-Levenshtein distance between `a[..i]` and `b[..j]`
/// (Lowrance-Wagner): a swap may join the character `a[i - 1]` with its last
/// earlier occurrence `b[l]` and `b[j - 1]` with its last earlier occurrence
/// `a[k]`, at the cost of the characters between them plus one.
pub open spec fn dl_prefix(a: Seq<char>, b: Seq<char>, i: nat, j: nat) -> nat
    decreases i + j,
{
    if i == 0 {
        j
    } else if j == 0 {
        i
    } else {
        let best = min3_nat(
            dl_prefix(a, b, (i - 1) as nat, j) + 1,
            dl_prefix(a, b, i, (j - 1) as nat) + 1,
            dl_prefix(a, b, (i - 1) as nat, (j - 1) as nat) + subst_cost(a[i - 1], b[j - 1]),
        );
        let k = last_index_of(a, b[j - 1], i - 1);
        let l = last_index_of(b, a[i - 1], j - 1);
        if k >= 0 && l >= 0 {
            proof {
                lemma_last_index_of(a, b[j - 1], i - 1);
                lemma_last_index_of(b, a[i - 1], j - 1);
            }
            min_nat(best, dl_prefix(a, b, k as nat, l as nat) + transposition_cost(i as int, j as int, k, l))
        } else {
            best
        }
    }
}

/// Cost of a swap that closes at `a[i - 1]`, `b[j - 1]` and opens at `a[k]`,
/// `b[l]`: one for the swap and one for each character skipped between.
pub open spec fn transposition_cost(i: int, j: int, k: int, l: int) -> nat {
    ((i - 2 - k) + (j - 2 - l) + 1) as nat
}

/// Unrestricted Damerau-Levenshtein distance between `a` and `b`.
pub open spec fn damerau_levenshtein(a: Seq<char>, b: Seq<char>) -> nat {
    dl_prefix(a, b, a.len(), b.len())
}


/// The distances of a prefix pair never exceed the sum of the prefix lengths.
pub proof fn lemma_prefix_bounds(a: Seq<char>, b: Seq<char>, i: nat, j: nat)
    ensures
        lev_prefix(a, b, i, j) <= i + j,
        osa_prefix(a, b, i, j) <= i + j,
        dl_prefix(a, b, i, j) <= i + j,
    decreases i + j,
{
    if i > 0 && j > 0 {
        lemma_prefix_bounds(a, b, (i - 1) as nat, j);
    }
}

proof fn lemma_prefix_self(a: Seq<char>, i: nat)
    requires
        i <= a.len(),
    ensures
        lev_prefix(a, a, i, i) == 0,
        osa_prefix(a, a, i, i) == 0,
        dl_prefix(a, a, i, i) == 0,
    decreases i,
{
    if i > 0 {
        lemma_prefix_self(a, (i - 1) as nat);
    }
}

proof fn lemma_prefix_symmetric(a: Seq<char>, b: Seq<char>, i: nat, j: nat)
    requires
        i <= a.len(),
        j <= b.len(),
    ensures
        lev_prefix(a, b, i, j) == lev_prefix(b, a, j, i),
        osa_prefix(a, b, i, j) == osa_prefix(b, a, j, i),
        dl_prefix(a, b, i, j) == dl_prefix(b, a, j, i),
    decreases i + j,
{
    if i > 0 && j > 0 {
        lemma_prefix_symmetric(a, b, (i - 1) as nat, j);
        lemma_prefix_symmetric(a, b, i, (j - 1) as nat);
        lemma_prefix_symmetric(a, b, (i - 1) as nat, (j - 1) as nat);
        if i >= 2 && j >= 2 {
            lemma_prefix_symmetric(a, b, (i - 2) as nat, (j - 2) as nat);
        }
        let k = last_index_of(a, b[j - 1], i - 1);
        let l = last_index_of(b, a[i - 1], j - 1);
        lemma_last_index_of(a, b[j - 1], i - 1);
        lemma_last_index_of(b, a[i - 1], j - 1);
        if k >= 0 && l >= 0 {
            lemma_prefix_symmetric(a, b, k as nat, l as nat);
        }
    }
}

proof fn lemma_osa_prefix_le_lev(a: Seq<char>, b: Seq<char>, i: nat, j: nat)
    ensures
        osa_prefix(a, b, i, j) <= lev_prefix(a, b, i, j),
    decreases i + j,
{
    if i > 0 && j > 0 {
        lemma_osa_prefix_le_lev(a, b, (i - 1) as nat, j);
        lemma_osa_prefix_le_lev(a, b, i, (j - 1) as nat);
        lemma_osa_prefix_le_lev(a, b, (i - 1) as nat, (j - 1) as nat);
    }
}

/// Every string is at distance zero from itself, by each of the three measures.
pub proof fn lemma_distance_to_self_is_zero(s: Seq<char>)
    ensures
        levenshtein(s, s) == 0,
        osa(s, s) == 0,
        damerau_levenshtein(s, s) == 0,
{
    lemma_prefix_self(s, s.len());
}

/// Each of the three measures is symmetric in its arguments.
pub proof fn lemma_distance_symmetric(a: Seq<char>, b: Seq<char>)
    ensures
        levenshtein(a, b) == levenshtein(b, a),
        osa(a, b) == osa(b, a),
        damerau_levenshtein(a, b) == damerau_levenshtein(b, a),
{
    lemma_prefix_symmetric(a, b, a.len(), b.len());
}

/// Allowing adjacent swaps never increases the distance: the optimal string
/// alignment distance is at most the Levenshtein distance.
pub proof fn lemma_osa_le_levenshtein(a: Seq<char>, b: Seq<char>)
    ensures
        osa(a, b) <= levenshtein(a, b),
{
    lemma_osa_prefix_le_lev(a, b, a.len(), b.len());
}

/// The distance between the empty string and `s`, either way round, is the
/// length of `s`, by each of the three measures.
pub proof fn lemma_distance_from_empty(s: Seq<char>)
    ensures
        levenshtein(Seq::empty(), s) == s.len(),
        osa(Seq::empty(), s) == s.len(),
        damerau_levenshtein(Seq::empty(), s) == s.len(),
        levenshtein(s, Seq::empty()) == s.len(),
        osa(s, Seq::empty()) == s.len(),
        damerau_levenshtein(s, Seq::empty()) == s.len(),
{
}


/// The optimal string alignment distance is no metric: there are texts `a`,
/// `b`, `c` for which `osa(a, c) > osa(a, b) + osa(b, c)`.
pub proof fn lemma_osa_triangle_can_fail()
    ensures
        exists|a: Seq<char>, b: Seq<char>, c: Seq<char>| osa(a, c) > osa(a, b) + osa(b, c),
{
    let a = seq!['c', 'a'];
    let b = seq!['a', 'c'];
    let c = seq!['a', 'b', 'c'];
    assert(a[0] == 'c' && a[1] == 'a');
    assert(b[0] == 'a' && b[1] == 'c');
    assert(c[0] == 'a' && c[1] == 'b' && c[2] == 'c');
    assert(osa_prefix(a, b, 0, 0) == 0);
    assert(osa_prefix(a, b, 0, 1) == 1);
    assert(osa_prefix(a, b, 1, 0) == 1);
    assert(osa_prefix(a, b, 0, 2) == 2);
    assert(osa_prefix(a, b, 2, 0) == 2);
    assert(subst_cost(a[0], b[0]) == 1);
    assert(osa_prefix(a, b, 1, 1) == 1);
    assert(osa_prefix(a, b, 1, 2) == 1);
    assert(osa_prefix(a, b, 2, 1) == 1);
    assert(osa_prefix(a, b, 2, 2) == 1);
    assert(osa_prefix(b, c, 0, 0) == 0);
    assert(osa_prefix(b, c, 0, 1) == 1);
    assert(osa_prefix(b, c, 0, 2) == 2);
    assert(osa_prefix(b, c, 0, 3) == 3);
    assert(osa_prefix(b, c, 1, 0) == 1);
    assert(osa_prefix(b, c, 2, 0) == 2);
    assert(osa_prefix(b, c, 1, 1) == 0);
    assert(osa_prefix(b, c, 1, 2) == 1);
    assert(osa_prefix(b, c, 1, 3) == 2);
    assert(osa_prefix(b, c, 2, 1) == 1);
    assert(osa_prefix(b, c, 2, 2) == 1);
    assert(osa_prefix(b, c, 2, 3) == 1);
    assert(osa_prefix(a, c, 0, 0) == 0);
    assert(osa_prefix(a, c, 0, 1) == 1);
    assert(osa_prefix(a, c, 0, 2) == 2);
    assert(osa_prefix(a, c, 0, 3) == 3);
    assert(osa_prefix(a, c, 1, 0) == 1);
    assert(osa_prefix(a, c, 2, 0) == 2);
    assert(osa_prefix(a, c, 1, 1) == 1);
    assert(osa_prefix(a, c, 1, 2) == 2);
    assert(osa_prefix(a, c, 1, 3) == 2);
    assert(osa_prefix(a, c, 2, 1) == 1);
    assert(osa_prefix(a, c, 2, 2) == 2);
    assert(osa_prefix(a, c, 2, 3) == 3);
    assert(osa(a, c) > osa(a, b) + osa(b, c));
}

} // verus!
