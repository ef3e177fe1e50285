//! Levenshtein, optimal string alignment and Damerau-Levenshtein distances,
//! computed by filling a `DistMatrix` whose border sits at index -1.
use vstd::prelude::*;
use std::ops::Range;
use std::collections::HashMap;
use crate::dist_matrix::{DistMatrix, FillSource};
use crate::edit_distance::{
    damerau_levenshtein, dl_prefix, last_index_of, lemma_distance_to_self_is_zero,
    lemma_last_index_of, lemma_prefix_bounds, lev_prefix, levenshtein, min3_nat, osa, osa_prefix,
    subst_cost,
};

verus! {

/// Longest text, in characters, that the distance functions accept: the
/// matrix coordinates are `i32`, and a Damerau-Levenshtein score may add up
/// twice the total length.
pub const MAX_CHARS: usize = 0x3fff_ffff;

/// Both texts are short enough for the matrix coordinates and scores.
pub open spec fn within_limits(a: Seq<char>, b: Seq<char>) -> bool {
    a.len() <= MAX_CHARS && b.len() <= MAX_CHARS
}

/// The characters of `s`, in order.
pub fn chars_of(s: &str) -> (r: Vec<char>)
    ensures
        r@ == s@,
{
    let mut r: Vec<char> = Vec::new();
    for c in it: s.chars()
        invariant
            r@ == it.seq().take(it.index() as int),
    {
        r.push(c);
    }
    r
}

/// `0, 1, ..., n - 1`: the values of a border that counts up.
fn counting_up(n: usize) -> (r: Vec<usize>)
    ensures
        r@.len() == n,
        forall|i: int| 0 <= i < n ==> #[trigger] r@[i] == i,
{
    let mut r: Vec<usize> = Vec::new();
    while r.len() < n
        invariant
            r@.len() <= n,
            forall|i: int| 0 <= i < r@.len() ==> #[trigger] r@[i] == i,
        decreases n - r@.len(),
    {
        let k = r.len();
        r.push(k);
    }
    r
}

/// How a cell of the Levenshtein matrix is scored once the three classic
/// candidates (delete, insert, substitute) have been weighed.
pub enum ScoreRule {
    /// Keep the best of the three: Levenshtein distance.
    Plain,
    /// Also try swapping two adjacent characters: optimal string alignment.
    AdjacentTransposition,
}

impl ScoreRule {
    /// The distance between `a[..i]` and `b[..j]` under this rule.
    pub open spec fn prefix_dist(&self, a: Seq<char>, b: Seq<char>, i: nat, j: nat) -> nat {
        match self {
            ScoreRule::Plain => lev_prefix(a, b, i, j),
            ScoreRule::AdjacentTransposition => osa_prefix(a, b, i, j),
        }
    }

    /// Final value of cell `(i1, i2)` from `score`, the best of the three
    /// classic candidates, and `cost`, that of substituting `b[i2]` for `a[i1]`.
    fn calc_score(
        &self,
        m: &DistMatrix<usize>,
        a: &Vec<char>,
        b: &Vec<char>,
        i1: i32,
        i2: i32,
        cost: usize,
        score: usize,
    ) -> (r: usize)
        requires
            m.wf(),
            0 <= i1 < a@.len(),
            0 <= i2 < b@.len(),
            m.x_range().start == -1,
            m.x_range().end == a@.len(),
            m.y_range().start == -1,
            m.y_range().end == b@.len(),
            cost == subst_cost(a@[i1 as int], b@[i2 as int]),
            score == min3_nat(
                self.prefix_dist(a@, b@, i1 as nat, (i2 + 1) as nat) + 1,
                self.prefix_dist(a@, b@, (i1 + 1) as nat, i2 as nat) + 1,
                self.prefix_dist(a@, b@, i1 as nat, i2 as nat) + cost as nat,
            ),
            i1 > 0 && i2 > 0 ==> m.cell(i1 - 2, i2 - 2) == self.prefix_dist(
                a@,
                b@,
                (i1 - 1) as nat,
                (i2 - 1) as nat,
            ),
        ensures
            r == self.prefix_dist(a@, b@, (i1 + 1) as nat, (i2 + 1) as nat),
    {
        match self {
            ScoreRule::Plain => score,
            ScoreRule::AdjacentTransposition => {
                if i1 > 0 && i2 > 0 && a[i1 as usize] == b[(i2 - 1) as usize] && a[(i1 - 1) as usize]
                    == b[i2 as usize] {
                    proof {
                        lemma_prefix_bounds(a@, b@, (i1 - 1) as nat, (i2 - 1) as nat);
                    }
                    let swapped = m.get(i1 - 2, i2 - 2) + cost;
                    if swapped < score {
                        swapped
                    } else {
                        score
                    }
                } else {
                    score
                }
            },
        }
    }
}

/// Cells of the Levenshtein matrix that are scored once the loops reach
/// `(i1, i2)`: the border, the rows before `i1`, and row `i1` up to `i2`.
pub open spec fn scored(x: int, y: int, i1: int, i2: int) -> bool {
    x == -1 || y == -1 || x < i1 || (x == i1 && y < i2)
}

/// Scores cell `(i1, i2)` of the Levenshtein matrix from its three (or, with
/// a swap, four) scored neighbours.
fn score_cell(m: &mut DistMatrix<usize>, a: &Vec<char>, b: &Vec<char>, rule: &ScoreRule, i1: i32, i2: i32)
    requires
        within_limits(a@, b@),
        0 <= i1 < a@.len(),
        0 <= i2 < b@.len(),
        old(m).wf(),
        old(m).x_range().start == -1,
        old(m).x_range().end == a@.len(),
        old(m).y_range().start == -1,
        old(m).y_range().end == b@.len(),
        forall|x: int, y: int|
            old(m).contains(x, y) && scored(x, y, i1 as int, i2 as int) ==> #[trigger] old(m).cell(
                x,
                y,
            ) == rule.prefix_dist(a@, b@, (x + 1) as nat, (y + 1) as nat),
    ensures
        final(m).wf(),
        final(m).x_range() == old(m).x_range(),
        final(m).y_range() == old(m).y_range(),
        forall|x: int, y: int|
            final(m).contains(x, y) && scored(x, y, i1 as int, i2 + 1) ==> #[trigger] final(m).cell(
                x,
                y,
            ) == rule.prefix_dist(a@, b@, (x + 1) as nat, (y + 1) as nat),
{
        let ch1 = a[i1 as usize];
        let ch2 = b[i2 as usize];
        let cost: usize = if ch1 == ch2 {
            0
        } else {
            1
        };
        let ghost d_del = rule.prefix_dist(a@, b@, i1 as nat, (i2 + 1) as nat);
        let ghost d_ins = rule.prefix_dist(a@, b@, (i1 + 1) as nat, i2 as nat);
        let ghost d_sub = rule.prefix_dist(a@, b@, i1 as nat, i2 as nat);
        proof {
            lemma_prefix_bounds(a@, b@, i1 as nat, (i2 + 1) as nat);
            lemma_prefix_bounds(a@, b@, (i1 + 1) as nat, i2 as nat);
            lemma_prefix_bounds(a@, b@, i1 as nat, i2 as nat);
            assert(scored(i1 - 1, i2 as int, i1 as int, i2 as int));
            assert(scored(i1 as int, i2 - 1, i1 as int, i2 as int));
            assert(scored(i1 - 1, i2 - 1, i1 as int, i2 as int));
            assert(scored(i1 - 2, i2 - 2, i1 as int, i2 as int));
            assert(old(m).cell(i1 - 1, i2 as int) == d_del);
            assert(old(m).cell(i1 as int, i2 - 1) == d_ins);
            assert(old(m).cell(i1 - 1, i2 - 1) == d_sub);
        }
        let del = m.get(i1 - 1, i2) + 1;
        let insert = m.get(i1, i2 - 1) + 1;
        let subst = m.get(i1 - 1, i2 - 1) + cost;
        let mut score = del;
        if insert < score {
            score = insert;
        }
        if subst < score {
            score = subst;
        }
        let v = rule.calc_score(m, a, b, i1, i2, cost, score);
        let ghost before = *m;
        m.set(i1, i2, v);
        assert forall|x: int, y: int|
            m.contains(x, y) && scored(x, y, i1 as int, i2 + 1) implies #[trigger] m.cell(x, y)
            == rule.prefix_dist(a@, b@, (x + 1) as nat, (y + 1) as nat) by {
            if x != i1 || y != i2 {
                assert(scored(x, y, i1 as int, i2 as int));
                assert(before.cell(x, y) == rule.prefix_dist(a@, b@, (x + 1) as nat, (y + 1) as nat));
            }
        }
}

/// Fills the matrix over `[-1, a.len())` by `[-1, b.len())` whose cell `(x, y)`
/// is the distance under `rule` between `a[..x + 1]` and `b[..y + 1]`.
fn fill_levenshtein_matrix(a: &Vec<char>, b: &Vec<char>, rule: &ScoreRule) -> (m: DistMatrix<usize>)
    requires
        within_limits(a@, b@),
    ensures
        m.wf(),
        m.x_range().start == -1,
        m.x_range().end == a@.len(),
        m.y_range().start == -1,
        m.y_range().end == b@.len(),
        forall|x: int, y: int|
            m.contains(x, y) ==> #[trigger] m.cell(x, y) == rule.prefix_dist(
                a@,
                b@,
                (x + 1) as nat,
                (y + 1) as nat,
            ),
{
    let len1 = a.len() as i32;
    let len2 = b.len() as i32;
    let mut m: DistMatrix<usize> = DistMatrix::new(-1..len1, -1..len2, 0);
    m.fill(&(-1..0), &(-1..len2), &FillSource::List(counting_up(b.len() + 1)));
    m.fill(&(-1..len1), &(-1..0), &FillSource::List(counting_up(a.len() + 1)));
    assert forall|x: int, y: int| m.contains(x, y) && scored(x, y, 0, 0) implies #[trigger] m.cell(
        x,
        y,
    ) == rule.prefix_dist(a@, b@, (x + 1) as nat, (y + 1) as nat) by {
        if y == -1 {
            assert((x + 1) * 1 == x + 1);
        } else {
            assert((x + 1) * (len2 + 1) == 0) by (nonlinear_arith)
                requires
                    x == -1,
            ;
        }
    }
    let mut i1: i32 = 0;
    while i1 < len1
        invariant
            within_limits(a@, b@),
            len1 == a@.len(),
            len2 == b@.len(),
            0 <= i1 <= len1,
            m.wf(),
            m.x_range().start == -1,
            m.x_range().end == len1,
            m.y_range().start == -1,
            m.y_range().end == len2,
            forall|x: int, y: int|
                m.contains(x, y) && scored(x, y, i1 as int, 0) ==> #[trigger] m.cell(x, y)
                    == rule.prefix_dist(a@, b@, (x + 1) as nat, (y + 1) as nat),
        decreases len1 - i1,
    {
        let mut i2: i32 = 0;
        while i2 < len2
            invariant
                within_limits(a@, b@),
                len1 == a@.len(),
                len2 == b@.len(),
                0 <= i1 < len1,
                0 <= i2 <= len2,
                m.wf(),
                m.x_range().start == -1,
                m.x_range().end == len1,
                m.y_range().start == -1,
                m.y_range().end == len2,
                forall|x: int, y: int|
                    m.contains(x, y) && scored(x, y, i1 as int, i2 as int) ==> #[trigger] m.cell(
                        x,
                        y,
                    ) == rule.prefix_dist(a@, b@, (x + 1) as nat, (y + 1) as nat),
            decreases len2 - i2,
        {
            score_cell(&mut m, a, b, rule, i1, i2);
            i2 = i2 + 1;
        }
        i1 = i1 + 1;
    }
    m
}

/// The matrix over `[-1, len(str1))` by `[-1, len(str2))` whose cell `(x, y)`
/// is the distance under `rule` between the first `x + 1` characters of
/// `str1` and the first `y + 1` characters of `str2`.
pub fn build_levenshtein_matrix(str1: &str, str2: &str, rule: &ScoreRule) -> (m: DistMatrix<usize>)
    requires
        within_limits(str1@, str2@),
    ensures
        m.wf(),
        m.x_range().start == -1,
        m.x_range().end == str1@.len(),
        m.y_range().start == -1,
        m.y_range().end == str2@.len(),
        forall|x: int, y: int|
            m.contains(x, y) ==> #[trigger] m.cell(x, y) == rule.prefix_dist(
                str1@,
                str2@,
                (x + 1) as nat,
                (y + 1) as nat,
            ),
{
    let a = chars_of(str1);
    let b = chars_of(str2);
    fill_levenshtein_matrix(&a, &b, rule)
}

/// Levenshtein distance: the fewest insertions, deletions and substitutions
/// of single characters that turn `str1` into `str2`.
pub fn levenshtein_distance(str1: &str, str2: &str) -> (r: usize)
    requires
        within_limits(str1@, str2@),
    ensures
        r == levenshtein(str1@, str2@),
{
    let m = build_levenshtein_matrix(str1, str2, &ScoreRule::Plain);
    *m.get_last()
}

/// Optimal string alignment distance: as Levenshtein, with the swap of two
/// adjacent characters as a fourth operation, where no substring is edited
/// more than once.
pub fn osa_distance(str1: &str, str2: &str) -> (r: usize)
    requires
        within_limits(str1@, str2@),
    ensures
        r == osa(str1@, str2@),
{
    let m = build_levenshtein_matrix(str1, str2, &ScoreRule::AdjacentTransposition);
    *m.get_last()
}


/// The key under which the last row of a character is kept: its code point.
pub open spec fn char_key(c: char) -> u32 {
    c as u32
}

/// Different characters have different keys.
pub proof fn lemma_char_key_injective(c: char, d: char)
    requires
        c != d,
    ensures
        char_key(c) != char_key(d),
{
}

/// Whether `a` and `b` hold the same characters.
pub(crate) fn same_chars(a: &Vec<char>, b: &Vec<char>) -> (r: bool)
    ensures
        r == (a@ == b@),
{
    if a.len() != b.len() {
        return false;
    }
    let mut i: usize = 0;
    while i < a.len()
        invariant
            a@.len() == b@.len(),
            i <= a@.len(),
            forall|p: int| 0 <= p < i ==> a@[p] == b@[p],
        decreases a@.len() - i,
    {
        if a[i] != b[i] {
            return false;
        }
        i = i + 1;
    }
    assert(a@ =~= b@);
    true
}

/// Cells of the Damerau-Levenshtein matrix that hold their final score once
/// the loops reach prefix cell `(i, j)`: row and column 0, the rows before
/// `i`, and row `i` before column `j`.
pub open spec fn dl_scored(x: int, y: int, i: int, j: int) -> bool {
    x == 0 || y == 0 || x < i || (x == i && y < j)
}

/// What the Damerau-Levenshtein matrix holds while it is filled up to prefix
/// cell `(i, j)`: the outer border at -1 holds the sentinel `a.len() + b.len()`,
/// and every scored cell `(x, y)` the distance between `a[..x]` and `b[..y]`.
pub open spec fn dl_matrix_holds(
    m: DistMatrix<usize>,
    a: Seq<char>,
    b: Seq<char>,
    i: int,
    j: int,
) -> bool {
    &&& m.wf()
    &&& m.x_range().start == -1
    &&& m.x_range().end == a.len() + 1
    &&& m.y_range().start == -1
    &&& m.y_range().end == b.len() + 1
    &&& forall|x: int, y: int|
        #![trigger m.cell(x, y)]
        m.contains(x, y) ==> {
            &&& (x == -1 || y == -1) ==> m.cell(x, y) == a.len() + b.len()
            &&& (0 <= x && 0 <= y && dl_scored(x, y, i, j)) ==> m.cell(x, y) == dl_prefix(
                a,
                b,
                x as nat,
                y as nat,
            )
        }
}

/// Scores prefix cell `(i1 + 1, i2 + 1)` of the Damerau-Levenshtein matrix,
/// given `k`, the last row before `i1` where `a` holds `b[i2]`, and `l`, the
/// last column before `i2` where `b` holds `a[i1]` (-1 for none).
fn dl_score_cell(m: &mut DistMatrix<usize>, a: &Vec<char>, b: &Vec<char>, i1: usize, i2: usize, k: i32, l: i32)
    requires
        within_limits(a@, b@),
        i1 < a@.len(),
        i2 < b@.len(),
        dl_matrix_holds(*old(m), a@, b@, i1 + 1, i2 + 1),
        k == last_index_of(a@, b@[i2 as int], i1 as int),
        l == last_index_of(b@, a@[i1 as int], i2 as int),
    ensures
        dl_matrix_holds(*final(m), a@, b@, i1 + 1, i2 + 2),
{
    proof {
        lemma_last_index_of(a@, b@[i2 as int], i1 as int);
        lemma_last_index_of(b@, a@[i1 as int], i2 as int);
        lemma_prefix_bounds(a@, b@, i1 as nat, (i2 + 1) as nat);
        lemma_prefix_bounds(a@, b@, (i1 + 1) as nat, i2 as nat);
        lemma_prefix_bounds(a@, b@, i1 as nat, i2 as nat);
        if k >= 0 && l >= 0 {
            lemma_prefix_bounds(a@, b@, k as nat, l as nat);
            assert(dl_scored(k as int, l as int, i1 + 1, i2 + 1));
        }
        assert(dl_scored(i1 as int, i2 as int, i1 + 1, i2 + 1));
        assert(dl_scored(i1 as int, i2 + 1, i1 + 1, i2 + 1));
        assert(dl_scored(i1 + 1, i2 as int, i1 + 1, i2 + 1));
        assert(old(m).contains(k as int, l as int));
    }
    let max_dist = a.len() + b.len();
    let cost: usize = if a[i1] == b[i2] {
        0
    } else {
        1
    };
    let subst = m.get(i1 as i32, i2 as i32) + cost;
    let insert = m.get(i1 as i32, (i2 + 1) as i32) + 1;
    let del = m.get((i1 + 1) as i32, i2 as i32) + 1;
    let transp = m.get(k, l) + (i1 as i32 - k - 1) as usize + (i2 as i32 - l - 1) as usize + 1;
    let mut score = subst;
    if insert < score {
        score = insert;
    }
    if del < score {
        score = del;
    }
    if transp < score {
        score = transp;
    }
    let ghost before = *m;
    m.set((i1 + 1) as i32, (i2 + 1) as i32, score);
    assert forall|x: int, y: int|
        #![trigger m.cell(x, y)]
        m.contains(x, y) implies {
            &&& (x == -1 || y == -1) ==> m.cell(x, y) == a@.len() + b@.len()
            &&& (0 <= x && 0 <= y && dl_scored(x, y, i1 + 1, i2 + 2)) ==> m.cell(x, y) == dl_prefix(
                a@,
                b@,
                x as nat,
                y as nat,
            )
        } by {
        if x != i1 + 1 || y != i2 + 1 {
            assert(before.contains(x, y));
        }
    }
}

/// Unrestricted Damerau-Levenshtein distance: the fewest insertions,
/// deletions, substitutions and swaps of adjacent characters that turn
/// `str1` into `str2`, where swapped characters may be edited again.
pub fn damerau_levenshtein_distance(str1: &str, str2: &str) -> (r: usize)
    requires
        within_limits(str1@, str2@),
    ensures
        r == damerau_levenshtein(str1@, str2@),
{
    broadcast use vstd::std_specs::hash::group_hash_axioms;

    let a = chars_of(str1);
    let b = chars_of(str2);
    if same_chars(&a, &b) {
        proof {
            lemma_distance_to_self_is_zero(a@);
        }
        return 0;
    }
    let len1 = a.len();
    let len2 = b.len();
    if len1 == 0 {
        return len2;
    }
    if len2 == 0 {
        return len1;
    }
    let r1: Range<i32> = -1..(len1 + 1) as i32;
    let r2: Range<i32> = -1..(len2 + 1) as i32;
    let mut m: DistMatrix<usize> = DistMatrix::new(-1..r1.end, -1..r2.end, 0);
    let max_dist = len1 + len2;
    m.fill(&(-1..0), &r2, &FillSource::Repeat(max_dist));
    m.fill(&r1, &(-1..0), &FillSource::Repeat(max_dist));
    assert forall|x: int, y: int|
        #![trigger m.cell(x, y)]
        m.contains(x, y) && (x == -1 || y == -1) implies m.cell(x, y) == max_dist by {}
    let ghost bordered = m;
    m.fill(&(0..r1.end), &(0..1), &FillSource::List(counting_up(len1 + 1)));
    assert forall|x: int, y: int|
        #![trigger m.cell(x, y)]
        m.contains(x, y) implies (x == -1 || y == -1 ==> m.cell(x, y) == max_dist) && (0 <= x
            && y == 0 ==> m.cell(x, y) == x) by {
        if 0 <= x && y == 0 {
            assert(x * 1 == x);
        } else {
            assert(bordered.contains(x, y));
        }
    }
    let ghost first_col = m;
    m.fill(&(0..1), &(0..r2.end), &FillSource::List(counting_up(len2 + 1)));
    assert forall|x: int, y: int|
        #![trigger m.cell(x, y)]
        m.contains(x, y) implies {
            &&& (x == -1 || y == -1) ==> m.cell(x, y) == a@.len() + b@.len()
            &&& (0 <= x && 0 <= y && dl_scored(x, y, 1, 1)) ==> m.cell(x, y) == dl_prefix(
                a@,
                b@,
                x as nat,
                y as nat,
            )
        } by {
        assert(first_col.contains(x, y));
        if x == 0 && 0 <= y {
            assert(0 * (len2 + 1) == 0);
        }
    }
    let mut chars: HashMap<u32, usize> = HashMap::new();
    let mut i1: usize = 0;
    while i1 < len1
        invariant
            within_limits(a@, b@),
            a@ == str1@,
            b@ == str2@,
            len1 == a@.len(),
            len2 == b@.len(),
            0 < len1,
            0 < len2,
            i1 <= len1,
            dl_matrix_holds(m, a@, b@, i1 + 1, 1),
            forall|c: char|
                #![trigger chars@.contains_key(char_key(c))]
                (chars@.contains_key(char_key(c)) <==> last_index_of(a@, c, i1 as int) >= 0) && (
                chars@.contains_key(char_key(c)) ==> chars@[char_key(c)] == last_index_of(
                    a@,
                    c,
                    i1 as int,
                )),
        decreases len1 - i1,
    {
        let ch1 = a[i1];
        let mut db: i32 = -1;
        let mut i2: usize = 0;
        while i2 < len2
            invariant
                within_limits(a@, b@),
                len1 == a@.len(),
                len2 == b@.len(),
                i1 < len1,
                i2 <= len2,
                ch1 == a@[i1 as int],
                dl_matrix_holds(m, a@, b@, i1 + 1, i2 + 1),
                db == last_index_of(b@, ch1, i2 as int),
                forall|c: char|
                    #![trigger chars@.contains_key(char_key(c))]
                    (chars@.contains_key(char_key(c)) <==> last_index_of(a@, c, i1 as int) >= 0) && (
                    chars@.contains_key(char_key(c)) ==> chars@[char_key(c)] == last_index_of(
                        a@,
                        c,
                        i1 as int,
                    )),
            decreases len2 - i2,
        {
            let ch2 = b[i2];
            proof {
                lemma_last_index_of(a@, ch2, i1 as int);
                lemma_last_index_of(b@, ch1, i2 as int);
                assert(chars@.contains_key(char_key(ch2)) <==> last_index_of(a@, ch2, i1 as int) >= 0);
            }
            let k: i32 = match chars.get(&(ch2 as u32)) {
                Some(v) => *v as i32,
                None => -1,
            };
            let l = db;
            if ch1 == ch2 {
                db = i2 as i32;
            }
            dl_score_cell(&mut m, &a, &b, i1, i2, k, l);
            i2 = i2 + 1;
        }
        proof {
            assert forall|x: int, y: int|
                #![trigger m.cell(x, y)]
                m.contains(x, y) && 0 <= x && 0 <= y && dl_scored(x, y, i1 + 2, 1) implies dl_scored(x, y, i1 + 1, len2 + 1) by {}
        }
        chars.insert(ch1 as u32, i1);
        proof {
            assert forall|c: char|
                #![trigger chars@.contains_key(char_key(c))]
                (chars@.contains_key(char_key(c)) <==> last_index_of(a@, c, i1 + 1) >= 0) && (
                chars@.contains_key(char_key(c)) ==> chars@[char_key(c)] == last_index_of(
                    a@,
                    c,
                    i1 + 1,
                )) by {
                if c != ch1 {
                    lemma_char_key_injective(c, ch1);
                }
            }
        }
        i1 = i1 + 1;
    }
    *m.get_last()
}

} // verus!
