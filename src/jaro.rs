//! The counts behind the Jaro and Jaro-Winkler similarities: characters that
//! match within a window, how many of them are out of order, and the shared
//! prefix. The similarity itself is a ratio of these counts.
use vstd::prelude::*;
use crate::levenshtein::{chars_of, same_chars};
use crate::helpers::{StringHelpers, cnt};

verus! {

/// What `str::to_lowercase` makes of a text.
pub uninterp spec fn lower_of(s: Seq<char>) -> Seq<char>;

/// Relies on `str::to_lowercase`: the result depends on the characters of
/// `s` alone.
#[verifier::external_body]
fn lowercase(s: &str) -> (r: String)
    ensures
        r@ == lower_of(s@),
{
    s.to_lowercase()
}

/// How far apart two characters may stand and still match: half the longer
/// length, less one.
pub open spec fn match_window(s1: Seq<char>, s2: Seq<char>) -> int {
    (if s1.len() >= s2.len() {
        s1.len()
    } else {
        s2.len()
    }) as int / 2 - 1
}

/// The first position `p` in `j..=high` of `s2` that is not taken and holds
/// `c`, or -1 when there is none.
pub open spec fn first_free(s2: Seq<char>, taken: Seq<bool>, c: char, j: int, high: int) -> int
    decreases high + 1 - j,
{
    if j > high {
        -1
    } else if !taken[j] && s2[j] == c {
        j
    } else {
        first_free(s2, taken, c, j + 1, high)
    }
}

/// The matched positions of `s1` and of `s2` once the first `n` characters
/// of `s1` have looked, in order, for the first free equal character of `s2`
/// within the match window.
pub open spec fn jaro_flags(s1: Seq<char>, s2: Seq<char>, n: int) -> (Seq<bool>, Seq<bool>)
    decreases n,
{
    if n <= 0 {
        (Seq::new(s1.len(), |p: int| false), Seq::new(s2.len(), |p: int| false))
    } else {
        let (f1, f2) = jaro_flags(s1, s2, n - 1);
        let i = n - 1;
        let w = match_window(s1, s2);
        let low = if i - w > 0 {
            i - w
        } else {
            0
        };
        let high = if i + w < s2.len() - 1 {
            i + w
        } else {
            s2.len() - 1
        };
        let j = first_free(s2, f2, s1[i], low, high);
        if j >= 0 {
            (f1.update(i, true), f2.update(j, true))
        } else {
            (f1, f2)
        }
    }
}

/// The characters of `s` at the positions that `f` marks, in order.
pub open spec fn picked(s: Seq<char>, f: Seq<bool>, n: int) -> Seq<char>
    decreases n,
{
    if n <= 0 {
        Seq::empty()
    } else if f[n - 1] {
        picked(s, f, n - 1).push(s[n - 1])
    } else {
        picked(s, f, n - 1)
    }
}

/// Number of positions below `n` where `x` and `y` differ.
pub open spec fn differing(x: Seq<char>, y: Seq<char>, n: int) -> nat
    decreases n,
{
    if n <= 0 {
        0
    } else {
        differing(x, y, n - 1) + if x[n - 1] != y[n - 1] {
            1nat
        } else {
            0nat
        }
    }
}

/// The result of comparing two texts for Jaro similarity.
#[derive(Debug, PartialEq, Eq)]
pub enum JaroScore {
    /// Similarity 1: the texts are the same.
    Same,
    /// Similarity 0: one text is empty, or no character matches.
    Unrelated,
    /// Similarity `(m / len1 + m / len2 + (m - t / 2) / m) / 3` for
    /// `matches` m and `half_transpositions` t: the matched characters that
    /// stand in a different order in the two texts. `len1` and `len2` are
    /// the lengths of the texts as compared, so after lower-casing where that
    /// applies; lower-casing can change a length ('İ' becomes two characters).
    Ratio { matches: usize, half_transpositions: usize, len1: usize, len2: usize },
}

/// Jaro comparison of `s1` and `s2` exactly as given.
pub open spec fn jaro_compare_spec(s1: Seq<char>, s2: Seq<char>) -> JaroScore {
    if s1 == s2 {
        JaroScore::Same
    } else {
        let (f1, f2) = jaro_flags(s1, s2, s1.len() as int);
        let picked1 = picked(s1, f1, s1.len() as int);
        let picked2 = picked(s2, f2, s2.len() as int);
        if picked1.len() == 0 {
            JaroScore::Unrelated
        } else {
            JaroScore::Ratio {
                matches: picked1.len() as usize,
                half_transpositions: differing(
                    picked1,
                    picked2,
                    if picked1.len() <= picked2.len() {
                        picked1.len() as int
                    } else {
                        picked2.len() as int
                    },
                ) as usize,
                len1: s1.len() as usize,
                len2: s2.len() as usize,
            }
        }
    }
}

/// The text that is compared: `s` itself, or its lower case.
pub open spec fn compared(s: Seq<char>, case_sensitive: bool) -> Seq<char> {
    if case_sensitive {
        s
    } else {
        lower_of(s)
    }
}

/// Jaro comparison of `a` and `b`, ignoring case unless `case_sensitive`.
pub open spec fn jaro_spec(a: Seq<char>, b: Seq<char>, case_sensitive: bool) -> JaroScore {
    if a.len() == 0 && b.len() == 0 {
        JaroScore::Same
    } else if a.len() == 0 || b.len() == 0 {
        JaroScore::Unrelated
    } else {
        jaro_compare_spec(compared(a, case_sensitive), compared(b, case_sensitive))
    }
}


/// `n` flags, all down.
fn all_false(n: usize) -> (r: Vec<bool>)
    ensures
        r@ == Seq::new(n as nat, |p: int| false),
{
    let mut r: Vec<bool> = Vec::new();
    while r.len() < n
        invariant
            r@.len() <= n,
            forall|p: int| 0 <= p < r@.len() ==> !#[trigger] r@[p],
        decreases n - r@.len(),
    {
        r.push(false);
    }
    assert(r@ =~= Seq::new(n as nat, |p: int| false));
    r
}

/// The matched positions of `s1` and of `s2` (see `jaro_flags`).
fn jaro_match_flags(s1: &Vec<char>, s2: &Vec<char>) -> (r: (Vec<bool>, Vec<bool>))
    ensures
        (r.0@, r.1@) == jaro_flags(s1@, s2@, s1@.len() as int),
        r.0@.len() == s1@.len(),
        r.1@.len() == s2@.len(),
{
    let len1 = s1.len();
    let len2 = s2.len();
    let half = if len1 >= len2 {
        len1 / 2
    } else {
        len2 / 2
    };
    let mut f1 = all_false(len1);
    let mut f2 = all_false(len2);
    let mut i: usize = 0;
    while i < len1
        invariant
            len1 == s1@.len(),
            len2 == s2@.len(),
            half == match_window(s1@, s2@) + 1,
            i <= len1,
            (f1@, f2@) == jaro_flags(s1@, s2@, i as int),
            f1@.len() == len1,
            f2@.len() == len2,
        decreases len1 - i,
    {
        let ghost w = match_window(s1@, s2@);
        let ghost high = if i + w < len2 - 1 {
            i + w
        } else {
            len2 - 1
        };
        let low: usize = if i + 1 >= half {
            i + 1 - half
        } else {
            0
        };
        let end: usize = if i >= len2 {
            len2
        } else if half >= len2 - i {
            len2
        } else {
            i + half
        };
        assert(low == (if i - w > 0 {
            i - w
        } else {
            0
        }));
        assert(end == high + 1);
        let c = s1[i];
        let mut pick: Option<usize> = None;
        let mut j: usize = low;
        while j < end && pick.is_none()
            invariant
                len2 == s2@.len(),
                f2@.len() == len2,
                low <= j,
                end <= len2,
                end == high + 1,
                pick is None ==> first_free(s2@, f2@, c, low as int, high)
                    == first_free(s2@, f2@, c, j as int, high),
                pick is Some ==> first_free(s2@, f2@, c, low as int, high) == pick->0 && pick->0
                    < len2,
            decreases end - j,
        {
            if !f2[j] && s2[j] == c {
                pick = Some(j);
            }
            j = j + 1;
        }
        let ghost before = (f1@, f2@);
        match pick {
            Some(p) => {
                f1.set(i, true);
                f2.set(p, true);
            },
            None => {},
        }
        assert((f1@, f2@) == jaro_flags(s1@, s2@, i + 1)) by {
            let prev = jaro_flags(s1@, s2@, i as int);
            assert(prev == before);
        }
        i = i + 1;
    }
    (f1, f2)
}

/// The characters of `s` at the positions that `f` marks, in order.
fn picked_chars(s: &Vec<char>, f: &Vec<bool>) -> (r: Vec<char>)
    requires
        f@.len() == s@.len(),
    ensures
        r@ == picked(s@, f@, s@.len() as int),
        r@.len() <= s@.len(),
{
    let mut r: Vec<char> = Vec::new();
    let mut i: usize = 0;
    while i < s.len()
        invariant
            f@.len() == s@.len(),
            i <= s@.len(),
            r@ == picked(s@, f@, i as int),
            r@.len() <= i,
        decreases s@.len() - i,
    {
        if f[i] {
            r.push(s[i]);
        }
        i = i + 1;
    }
    r
}

/// Jaro comparison of `s1` and `s2` as given: `Same` when they are equal,
/// `Unrelated` when no character matches, otherwise the counts of matches and
/// of matched characters out of order.
pub fn jaro_compare(s1: &str, s2: &str) -> (r: JaroScore)
    ensures
        r == jaro_compare_spec(s1@, s2@),
{
    let a = chars_of(s1);
    let b = chars_of(s2);
    if same_chars(&a, &b) {
        return JaroScore::Same;
    }
    let (f1, f2) = jaro_match_flags(&a, &b);
    let picked1 = picked_chars(&a, &f1);
    let picked2 = picked_chars(&b, &f2);
    if picked1.len() == 0 {
        return JaroScore::Unrelated;
    }
    let n = if picked1.len() <= picked2.len() {
        picked1.len()
    } else {
        picked2.len()
    };
    let mut t: usize = 0;
    let mut k: usize = 0;
    while k < n
        invariant
            n <= picked1@.len(),
            n <= picked2@.len(),
            k <= n,
            t == differing(picked1@, picked2@, k as int),
            t <= k,
        decreases n - k,
    {
        if picked1[k] != picked2[k] {
            t = t + 1;
        }
        k = k + 1;
    }
    JaroScore::Ratio { matches: picked1.len(), half_transpositions: t, len1: a.len(), len2: b.len() }
}

/// Jaro comparison of `str1` and `str2`, in lower case unless
/// `case_sensitive`: `Same` when both are empty or the compared texts are
/// equal, `Unrelated` when exactly one is empty or nothing matches.
/// The match window and the lengths in `Ratio` are those of the compared
/// (lower-cased) texts.
pub fn jaro_score(str1: &str, str2: &str, case_sensitive: bool) -> (r: JaroScore)
    ensures
        r == jaro_spec(str1@, str2@, case_sensitive),
{
    let len1 = cnt(str1);
    let len2 = cnt(str2);
    if len1 == 0 && len2 == 0 {
        return JaroScore::Same;
    }
    if len1 == 0 || len2 == 0 {
        return JaroScore::Unrelated;
    }
    if case_sensitive {
        jaro_compare(str1, str2)
    } else {
        let lcs1 = lowercase(str1);
        let lcs2 = lowercase(str2);
        jaro_compare(lcs1.as_str(), lcs2.as_str())
    }
}

/// Length of the common prefix of `a` and `b` from position `n` on, stopping
/// at `cap`.
pub open spec fn common_prefix(a: Seq<char>, b: Seq<char>, n: int, cap: int) -> int
    decreases cap - n,
{
    if n >= cap || n >= a.len() || n >= b.len() || a[n] != b[n] {
        n
    } else {
        common_prefix(a, b, n + 1, cap)
    }
}

/// Length of the common prefix that Jaro-Winkler rewards: the characters that
/// `str1` and `str2` share at the start, at most four.
pub fn winkler_prefix(str1: &str, str2: &str) -> (r: usize)
    ensures
        r == common_prefix(str1@, str2@, 0, 4),
{
    let len1 = cnt(str1);
    let len2 = cnt(str2);
    let mut l: usize = 0;
    while l < 4 && l < len1 && l < len2 && str1.nth_char(l as i32) == str2.nth_char(l as i32)
        invariant
            len1 == str1@.len(),
            len2 == str2@.len(),
            l <= 4,
            common_prefix(str1@, str2@, l as int, 4) == common_prefix(str1@, str2@, 0, 4),
        decreases 4 - l,
    {
        l = l + 1;
    }
    l
}

} // verus!
