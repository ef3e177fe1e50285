//! Longest common substrings, grown one character at a time from the
//! characters that the two texts share.
use vstd::prelude::*;
use crate::levenshtein::chars_of;
use crate::helpers::push_char;

verus! {

/// A common substring `str`, found at character `idx1` of the first text and
/// at character `idx2` of the second.
pub struct Match {
    pub str: String,
    pub idx1: usize,
    pub idx2: usize,
}

/// What a `Match` stands for: its text and its two positions.
pub struct MatchView {
    pub text: Seq<char>,
    pub idx1: int,
    pub idx2: int,
}

impl View for Match {
    type V = MatchView;

    open spec fn view(&self) -> MatchView {
        MatchView { text: self.str@, idx1: self.idx1 as int, idx2: self.idx2 as int }
    }
}

impl Match {
    /// The match of `str` at `idx1` in the first text and `idx2` in the second.
    pub fn new(str: String, idx1: usize, idx2: usize) -> (r: Match)
        ensures
            r@ == (MatchView { text: str@, idx1: idx1 as int, idx2: idx2 as int }),
    {
        Match { str, idx1, idx2 }
    }

    /// Position of the match in the first text.
    pub fn idx1(&self) -> (r: usize)
        ensures
            r == self@.idx1,
    {
        self.idx1
    }

    /// Position of the match in the second text.
    pub fn idx2(&self) -> (r: usize)
        ensures
            r == self@.idx2,
    {
        self.idx2
    }
}

/// The views of a list of matches.
pub open spec fn views(ms: Seq<Match>) -> Seq<MatchView> {
    ms.map_values(|m: Match| m@)
}

/// `m` extended by one character, when the character after it is the same in
/// both texts.
pub open spec fn extend(m: MatchView, a: Seq<char>, b: Seq<char>) -> Option<MatchView> {
    let next1 = m.idx1 + m.text.len();
    let next2 = m.idx2 + m.text.len();
    if 0 <= next1 < a.len() && 0 <= next2 < b.len() && a[next1] == b[next2] {
        Some(MatchView { text: m.text.push(a[next1]), idx1: m.idx1, idx2: m.idx2 })
    } else {
        None
    }
}

/// The matches of `ms` that extend by one character, extended, in order.
pub open spec fn deeper(ms: Seq<MatchView>, a: Seq<char>, b: Seq<char>) -> Seq<MatchView>
    decreases ms.len(),
{
    if ms.len() == 0 {
        Seq::empty()
    } else {
        let rest = deeper(ms.drop_last(), a, b);
        match extend(ms.last(), a, b) {
            Some(m) => rest.push(m),
            None => rest,
        }
    }
}

/// Extends every match in `mtchs` whose next character is the same in `str1`
/// and `str2` by that character, and drops the others.
pub fn get_deeper_matches(mtchs: &Vec<Match>, str1: &str, str2: &str) -> (r: Vec<Match>)
    ensures
        views(r@) == deeper(views(mtchs@), str1@, str2@),
{
    let a = chars_of(str1);
    let b = chars_of(str2);
    let mut m: Vec<Match> = Vec::new();
    let mut i: usize = 0;
    while i < mtchs.len()
        invariant
            a@ == str1@,
            b@ == str2@,
            i <= mtchs@.len(),
            views(m@) == deeper(views(mtchs@.take(i as int)), a@, b@),
        decreases mtchs@.len() - i,
    {
        let mtch = &mtchs[i];
        proof {
            assert(views(mtchs@.take(i + 1)).drop_last() =~= views(mtchs@.take(i as int)));
            assert(views(mtchs@.take(i + 1)).last() == mtch@);
        }
        let offset = chars_of(mtch.str.as_str()).len();
        if mtch.idx1 < a.len() && offset < a.len() - mtch.idx1 && mtch.idx2 < b.len() && offset
            < b.len() - mtch.idx2 {
            let ch1 = a[mtch.idx1 + offset];
            let ch2 = b[mtch.idx2 + offset];
            if ch1 == ch2 {
                let mut new_str = mtch.str.clone();
                push_char(&mut new_str, ch1);
                let ghost before = views(m@);
                m.push(Match { str: new_str, idx1: mtch.idx1, idx2: mtch.idx2 });
                assert(views(m@) =~= before.push(views(m@).last()));
            }
        }
        i = i + 1;
    }
    assert(mtchs@.take(mtchs@.len() as int) =~= mtchs@);
    m
}

/// `a[i..i + len]` and `b[j..j + len]` are the same text.
pub open spec fn common_at(a: Seq<char>, b: Seq<char>, i: int, j: int, len: int) -> bool {
    &&& 0 <= len
    &&& 0 <= i && i + len <= a.len()
    &&& 0 <= j && j + len <= b.len()
    &&& a.subrange(i, i + len) == b.subrange(j, j + len)
}

/// `s` is a substring of both `a` and `b`.
pub open spec fn is_common(a: Seq<char>, b: Seq<char>, s: Seq<char>) -> bool {
    exists|i: int, j: int|
        #[trigger] common_at(a, b, i, j, s.len() as int) && a.subrange(i, i + s.len()) == s
}

/// No common substring of `a` and `b` is longer than `len`.
pub open spec fn none_longer(a: Seq<char>, b: Seq<char>, len: int) -> bool {
    forall|i: int, j: int, n: int| #[trigger] common_at(a, b, i, j, n) ==> n <= len
}

/// The match of `len` characters at `i` in `a` and `j` in `b`.
pub open spec fn match_at(a: Seq<char>, i: int, j: int, len: int) -> MatchView {
    MatchView { text: a.subrange(i, i + len), idx1: i, idx2: j }
}

/// `m` is a common substring of `len` characters at its two positions.
pub open spec fn valid(m: MatchView, a: Seq<char>, b: Seq<char>, len: int) -> bool {
    m.text.len() == len && common_at(a, b, m.idx1, m.idx2, len) && m == match_at(
        a,
        m.idx1,
        m.idx2,
        len,
    )
}

/// Every match of `ms` is a common substring of `len` characters.
pub open spec fn all_valid(ms: Seq<MatchView>, a: Seq<char>, b: Seq<char>, len: int) -> bool {
    forall|p: int| 0 <= p < ms.len() ==> valid(#[trigger] ms[p], a, b, len)
}

/// Every pair of positions where `a` and `b` share `len` characters has its
/// match in `ms`.
pub open spec fn covers(ms: Seq<MatchView>, a: Seq<char>, b: Seq<char>, len: int) -> bool {
    forall|i: int, j: int|
        #[trigger] common_at(a, b, i, j, len) ==> exists|p: int|
            0 <= p < ms.len() && ms[p] == match_at(a, i, j, len)
}

/// A common stretch also shares each of its beginnings.
proof fn lemma_common_prefix(a: Seq<char>, b: Seq<char>, i: int, j: int, n: int, k: int)
    requires
        common_at(a, b, i, j, n),
        0 <= k <= n,
    ensures
        common_at(a, b, i, j, k),
{
    assert(a.subrange(i, i + k) =~= a.subrange(i, i + n).subrange(0, k));
    assert(b.subrange(j, j + k) =~= b.subrange(j, j + n).subrange(0, k));
}

proof fn lemma_deeper_from(ms: Seq<MatchView>, a: Seq<char>, b: Seq<char>)
    ensures
        forall|q: int|
            0 <= q < deeper(ms, a, b).len() ==> exists|p: int|
                0 <= p < ms.len() && extend(ms[p], a, b) == Some(#[trigger] deeper(ms, a, b)[q]),
        forall|p: int|
            0 <= p < ms.len() && (#[trigger] extend(ms[p], a, b)) is Some ==> exists|q: int|
                0 <= q < deeper(ms, a, b).len() && deeper(ms, a, b)[q] == extend(ms[p], a, b)->0,
    decreases ms.len(),
{
    if ms.len() > 0 {
        let rest = ms.drop_last();
        lemma_deeper_from(rest, a, b);
        let d = deeper(ms, a, b);
        let dr = deeper(rest, a, b);
        assert forall|q: int| 0 <= q < d.len() implies exists|p: int|
            0 <= p < ms.len() && extend(ms[p], a, b) == Some(#[trigger] d[q]) by {
            if q < dr.len() {
                assert(d[q] == dr[q]);
                let p = choose|p: int| 0 <= p < rest.len() && extend(rest[p], a, b) == Some(dr[q]);
                assert(ms[p] == rest[p]);
            } else {
                assert(extend(ms[ms.len() - 1], a, b) == Some(d[q]));
            }
        }
        assert forall|p: int| 0 <= p < ms.len() && (#[trigger] extend(ms[p], a, b)) is Some implies exists|q: int|
            0 <= q < d.len() && d[q] == extend(ms[p], a, b)->0 by {
            if p < rest.len() {
                assert(rest[p] == ms[p]);
                assert(extend(rest[p], a, b) is Some);
                let q = choose|q: int| 0 <= q < dr.len() && dr[q] == extend(rest[p], a, b)->0;
                assert(d[q] == dr[q]);
            } else {
                assert(d[d.len() - 1] == extend(ms[p], a, b)->0);
            }
        }
    }
}

/// One round of `deeper` turns valid matches of `len` characters that cover
/// every shared stretch of that length into valid matches of `len + 1` that
/// cover every shared stretch of that length.
proof fn lemma_deeper_round(ms: Seq<MatchView>, a: Seq<char>, b: Seq<char>, len: int)
    requires
        0 <= len,
        all_valid(ms, a, b, len),
        covers(ms, a, b, len),
    ensures
        all_valid(deeper(ms, a, b), a, b, len + 1),
        covers(deeper(ms, a, b), a, b, len + 1),
{
    lemma_deeper_from(ms, a, b);
    let d = deeper(ms, a, b);
    assert forall|q: int| 0 <= q < d.len() implies valid(#[trigger] d[q], a, b, len + 1) by {
        let p = choose|p: int| 0 <= p < ms.len() && extend(ms[p], a, b) == Some(d[q]);
        let m = ms[p];
        assert(valid(m, a, b, len));
        let i = m.idx1;
        let j = m.idx2;
        assert(a.subrange(i, i + len + 1) =~= a.subrange(i, i + len).push(a[i + len]));
        assert(b.subrange(j, j + len + 1) =~= b.subrange(j, j + len).push(b[j + len]));
    }
    assert forall|i: int, j: int| #[trigger] common_at(a, b, i, j, len + 1) implies exists|q: int|
        0 <= q < d.len() && d[q] == match_at(a, i, j, len + 1) by {
        lemma_common_prefix(a, b, i, j, len + 1, len);
        let p = choose|p: int| 0 <= p < ms.len() && ms[p] == match_at(a, i, j, len);
        assert(a[i + len] == a.subrange(i, i + len + 1)[len]);
        assert(b[j + len] == b.subrange(j, j + len + 1)[len]);
        assert(a.subrange(i, i + len + 1) =~= a.subrange(i, i + len).push(a[i + len]));
        assert(extend(ms[p], a, b) == Some(match_at(a, i, j, len + 1)));
    }
}

/// No two matches of `ms` stand at the same pair of positions.
pub open spec fn distinct_positions(ms: Seq<MatchView>) -> bool {
    forall|p: int, q: int|
        0 <= p < q < ms.len() ==> (#[trigger] ms[p]).idx1 != (#[trigger] ms[q]).idx1
            || ms[p].idx2 != ms[q].idx2
}

proof fn lemma_deeper_distinct(ms: Seq<MatchView>, a: Seq<char>, b: Seq<char>)
    requires
        distinct_positions(ms),
    ensures
        distinct_positions(deeper(ms, a, b)),
    decreases ms.len(),
{
    if ms.len() > 0 {
        let rest = ms.drop_last();
        assert(distinct_positions(rest)) by {
            assert forall|p: int, q: int| 0 <= p < q < rest.len() implies (#[trigger] rest[p]).idx1
                != (#[trigger] rest[q]).idx1 || rest[p].idx2 != rest[q].idx2 by {
                assert(rest[p] == ms[p] && rest[q] == ms[q]);
            }
        }
        lemma_deeper_distinct(rest, a, b);
        lemma_deeper_from(rest, a, b);
        let dr = deeper(rest, a, b);
        let d = deeper(ms, a, b);
        if let Some(w) = extend(ms.last(), a, b) {
            assert forall|p: int, q: int| 0 <= p < q < d.len() implies (#[trigger] d[p]).idx1
                != (#[trigger] d[q]).idx1 || d[p].idx2 != d[q].idx2 by {
                if q == d.len() - 1 {
                    assert(d[p] == dr[p]);
                    let k = choose|k: int| 0 <= k < rest.len() && extend(rest[k], a, b) == Some(dr[p]);
                    assert(rest[k] == ms[k]);
                    assert(ms.last() == ms[ms.len() - 1]);
                } else {
                    assert(d[p] == dr[p] && d[q] == dr[q]);
                }
            }
        }
    }
}

/// One-character text holding `c`.
fn char_string(c: char) -> (r: String)
    ensures
        r@ == seq![c],
{
    let mut s = String::new();
    push_char(&mut s, c);
    assert(s@ =~= seq![c]);
    s
}

/// The longest common substrings of `str1` and `str2`, one match for each
/// pair of positions where they occur: every pair of equal characters is a
/// match, and all matches grow by one character at a time for as long as any
/// of them can. None when the texts share no character.
pub fn distance2(str1: &str, str2: &str) -> (r: Vec<Match>)
    ensures
        r@.len() > 0 <==> exists|i: int, j: int|
            0 <= i < str1@.len() && 0 <= j < str2@.len() && str1@[i] == str2@[j],
        r@.len() > 0 ==> {
            let len = r@[0]@.text.len() as int;
            &&& len > 0
            &&& all_valid(views(r@), str1@, str2@, len)
            &&& covers(views(r@), str1@, str2@, len)
            &&& none_longer(str1@, str2@, len)
        },
        distinct_positions(views(r@)),
{
    let a = chars_of(str1);
    let b = chars_of(str2);
    let mut m: Vec<Match> = Vec::new();
    let mut i2: usize = 0;
    while i2 < b.len()
        invariant
            a@ == str1@,
            b@ == str2@,
            i2 <= b@.len(),
            all_valid(views(m@), a@, b@, 1),
            distinct_positions(views(m@)),
            forall|p: int| 0 <= p < m@.len() ==> (#[trigger] views(m@)[p]).idx2 < i2,
            forall|i: int, j: int|
                #[trigger] common_at(a@, b@, i, j, 1) && j < i2 ==> exists|p: int|
                    0 <= p < m@.len() && views(m@)[p] == match_at(a@, i, j, 1),
        decreases b@.len() - i2,
    {
        let mut i1: usize = 0;
        while i1 < a.len()
            invariant
                a@ == str1@,
                b@ == str2@,
                i2 < b@.len(),
                i1 <= a@.len(),
                all_valid(views(m@), a@, b@, 1),
                distinct_positions(views(m@)),
                forall|p: int|
                    0 <= p < m@.len() ==> (#[trigger] views(m@)[p]).idx2 < i2 || (views(m@)[p].idx2
                        == i2 && views(m@)[p].idx1 < i1),
                forall|i: int, j: int|
                    #[trigger] common_at(a@, b@, i, j, 1) && (j < i2 || (j == i2 && i < i1))
                        ==> exists|p: int| 0 <= p < m@.len() && views(m@)[p] == match_at(a@, i, j, 1),
            decreases a@.len() - i1,
        {
            if a[i1] == b[i2] {
                let ghost before = views(m@);
                let ghost mv = match_at(a@, i1 as int, i2 as int, 1);
                m.push(Match { str: char_string(b[i2]), idx1: i1, idx2: i2 });
                proof {
                    assert(a@.subrange(i1 as int, i1 + 1) =~= seq![a@[i1 as int]]);
                    assert(b@.subrange(i2 as int, i2 + 1) =~= seq![b@[i2 as int]]);
                    assert(views(m@) =~= before.push(mv));
                    assert(views(m@)[before.len() as int] == mv);
                    assert forall|p: int| 0 <= p < before.len() implies views(m@)[p] == before[p] by {}
                    assert forall|i: int, j: int|
                        #[trigger] common_at(a@, b@, i, j, 1) && (j < i2 || (j == i2 && i < i1 + 1))
                            implies exists|p: int| 0 <= p < m@.len() && views(m@)[p] == match_at(a@, i, j, 1) by {
                        if j < i2 || (j == i2 && i < i1) {
                            let p = choose|p: int| 0 <= p < before.len() && before[p] == match_at(a@, i, j, 1);
                            assert(views(m@)[p] == before[p]);
                        }
                    }
                }
            } else {
                proof {
                    assert forall|i: int, j: int|
                        #[trigger] common_at(a@, b@, i, j, 1) && (j < i2 || (j == i2 && i < i1 + 1))
                            implies exists|p: int| 0 <= p < m@.len() && views(m@)[p] == match_at(a@, i, j, 1) by {
                        if j == i2 && i == i1 {
                            assert(a@[i] == a@.subrange(i, i + 1)[0]);
                            assert(b@[j] == b@.subrange(j, j + 1)[0]);
                        }
                    }
                }
            }
            i1 = i1 + 1;
        }
        i2 = i2 + 1;
    }
    let mut n: Vec<Match> = Vec::new();
    let ghost mut round: int = 0;
    while !m.is_empty()
        invariant
            a@ == str1@,
            b@ == str2@,
            0 <= round,
            all_valid(views(m@), a@, b@, round + 1),
            covers(views(m@), a@, b@, round + 1),
            distinct_positions(views(m@)),
            round > 0 ==> distinct_positions(views(n@)),
            round == 0 ==> n@.len() == 0,
            round > 0 ==> n@.len() > 0 && all_valid(views(n@), a@, b@, round) && covers(
                views(n@),
                a@,
                b@,
                round,
            ),
        decreases a@.len() + 1 - round,
    {
        assert(valid(views(m@)[0], a@, b@, round + 1));
        n = m;
        m = get_deeper_matches(&n, str1, str2);
        proof {
            lemma_deeper_round(views(n@), a@, b@, round + 1);
            lemma_deeper_distinct(views(n@), a@, b@);
            round = round + 1;
        }
    }
    proof {
        assert(views(m@).len() == 0);
        if exists|i: int, j: int| 0 <= i < a@.len() && 0 <= j < b@.len() && a@[i] == b@[j] {
            let (i, j) = choose|i: int, j: int| 0 <= i < a@.len() && 0 <= j < b@.len() && a@[i] == b@[j];
            assert(a@.subrange(i, i + 1) =~= seq![a@[i]]);
            assert(b@.subrange(j, j + 1) =~= seq![b@[j]]);
            assert(common_at(a@, b@, i, j, 1));
            assert(round > 0);
        }
        if round > 0 {
            assert(views(n@).len() == n@.len());
            assert(valid(views(n@)[0], a@, b@, round));
            assert(views(n@)[0] == n@[0]@);
            let v = views(n@)[0];
            assert(a@[v.idx1] == a@.subrange(v.idx1, v.idx1 + round)[0]);
            assert(b@[v.idx2] == b@.subrange(v.idx2, v.idx2 + round)[0]);
            assert forall|i: int, j: int, k: int| #[trigger] common_at(a@, b@, i, j, k) implies k
                <= round by {
                if k > round {
                    lemma_common_prefix(a@, b@, i, j, k, round + 1);
                }
            }
        }
    }
    n
}

/// The texts of the entries of `e`.
pub open spec fn keys(e: Seq<(String, u8)>) -> Seq<Seq<char>> {
    e.map_values(|p: (String, u8)| p.0@)
}

/// The longest common substrings of `str1` and `str2`, each once, with its
/// length as score; none when the texts share no character.
pub fn distance(str1: &str, str2: &str) -> (r: Vec<(String, u8)>)
    requires
        none_longer(str1@, str2@, 255),
    ensures
        r@.len() == 0 <==> forall|i: int, j: int|
            0 <= i < str1@.len() && 0 <= j < str2@.len() ==> str1@[i] != str2@[j],
        forall|k: int|
            0 <= k < r@.len() ==> {
                &&& is_common(str1@, str2@, #[trigger] r@[k].0@)
                &&& r@[k].1 as int == r@[k].0@.len() > 0
                &&& none_longer(str1@, str2@, r@[k].1 as int)
            },
        forall|i: int, j: int, n: int|
            #[trigger] common_at(str1@, str2@, i, j, n) && n > 0 && none_longer(str1@, str2@, n)
                ==> exists|k: int| 0 <= k < r@.len() && r@[k].0@ == str1@.subrange(i, i + n),
        forall|k1: int, k2: int|
            0 <= k1 < k2 < r@.len() ==> #[trigger] r@[k1].0@ != #[trigger] r@[k2].0@,
{
    let ms = distance2(str1, str2);
    let mut substrs: Vec<(String, u8)> = Vec::new();
    let ghost len: int = if ms@.len() > 0 {
        ms@[0]@.text.len() as int
    } else {
        0
    };
    proof {
        if ms@.len() > 0 {
            let v = views(ms@)[0];
            assert(valid(v, str1@, str2@, len));
        }
    }
    let mut p: usize = 0;
    while p < ms.len()
        invariant
            p <= ms@.len(),
            none_longer(str1@, str2@, 255),
            ms@.len() > 0 ==> {
                &&& len > 0
                &&& all_valid(views(ms@), str1@, str2@, len)
                &&& covers(views(ms@), str1@, str2@, len)
                &&& none_longer(str1@, str2@, len)
                &&& len < 256
            },
            forall|k: int|
                0 <= k < substrs@.len() ==> {
                    &&& is_common(str1@, str2@, #[trigger] substrs@[k].0@)
                    &&& substrs@[k].0@.len() == len
                    &&& substrs@[k].1 as int == len
                },
            forall|q: int|
                0 <= q < p ==> exists|k: int|
                    0 <= k < substrs@.len() && substrs@[k].0@ == (#[trigger] ms@[q])@.text,
            forall|k1: int, k2: int|
                0 <= k1 < k2 < substrs@.len() ==> #[trigger] substrs@[k1].0@
                    != #[trigger] substrs@[k2].0@,
            ms@.len() == 0 ==> substrs@.len() == 0,
        decreases ms@.len() - p,
    {
        let ghost start = substrs@;
        let v = ms[p].str.clone();
        let ghost mv = views(ms@)[p as int];
        proof {
            assert(valid(mv, str1@, str2@, len));
            assert(mv == ms@[p as int]@);
        }
        let mut present = false;
        let mut k: usize = 0;
        while k < substrs.len()
            invariant
                k <= substrs@.len(),
                present <==> exists|t: int| 0 <= t < k && substrs@[t].0@ == v@,
            decreases substrs@.len() - k,
        {
            if substrs[k].0 == v {
                present = true;
            }
            k = k + 1;
        }
        if !present {
            let n = chars_of(v.as_str()).len();
            let ghost before = substrs@;
            substrs.push((v, n as u8));
            proof {
                assert(substrs@[before.len() as int] == (v, n as u8));
                assert(is_common(str1@, str2@, v@)) by {
                    assert(common_at(str1@, str2@, mv.idx1, mv.idx2, len));
                    assert(str1@.subrange(mv.idx1, mv.idx1 + v@.len()) == v@);
                }
                assert forall|k: int| 0 <= k < substrs@.len() implies {
                    &&& is_common(str1@, str2@, #[trigger] substrs@[k].0@)
                    &&& substrs@[k].0@.len() == len
                    &&& substrs@[k].1 as int == len
                } by {
                    if k < before.len() {
                        assert(substrs@[k] == before[k]);
                    }
                }
            }
        }
        proof {
            assert forall|q: int| 0 <= q < p + 1 implies exists|k: int|
                0 <= k < substrs@.len() && substrs@[k].0@ == (#[trigger] ms@[q])@.text by {
                if q < p {
                    let k = choose|k: int| 0 <= k < start.len() && start[k].0@ == ms@[q]@.text;
                    assert(substrs@[k] == start[k]);
                } else if !present {
                    assert(substrs@[substrs@.len() - 1].0@ == v@);
                } else {
                    assert(v@ == ms@[q]@.text);
                    let t = choose|t: int| 0 <= t < start.len() && start[t].0@ == v@;
                    assert(substrs@[t] == start[t]);
                }
            }
        }
        p = p + 1;
    }
    proof {
        assert forall|i: int, j: int, n: int|
            #[trigger] common_at(str1@, str2@, i, j, n) && n > 0 && none_longer(str1@, str2@, n)
                implies exists|k: int| 0 <= k < substrs@.len() && substrs@[k].0@ == str1@.subrange(i, i + n) by {
            assert(str1@[i] == str1@.subrange(i, i + n)[0]);
            assert(str2@[j] == str2@.subrange(j, j + n)[0]);
            assert(ms@.len() > 0);
            let v = views(ms@)[0];
            assert(common_at(str1@, str2@, v.idx1, v.idx2, len));
            assert(n == len);
            let q = choose|q: int| 0 <= q < views(ms@).len() && views(ms@)[q] == match_at(str1@, i, j, n);
            assert(ms@[q]@ == views(ms@)[q]);
        }
        assert forall|k: int| 0 <= k < substrs@.len() implies {
            &&& is_common(str1@, str2@, #[trigger] substrs@[k].0@)
            &&& substrs@[k].1 as int == substrs@[k].0@.len() > 0
            &&& none_longer(str1@, str2@, substrs@[k].1 as int)
        } by {
            assert(ms@.len() > 0);
        }
        if substrs@.len() == 0 {
            assert(ms@.len() == 0) by {
                if ms@.len() > 0 {
                    assert(exists|k: int| 0 <= k < substrs@.len() && substrs@[k].0@ == ms@[0]@.text);
                }
            }
        }
    }
    substrs
}

} // verus!
