use vstd::prelude::*;
use vstd::string::StrSliceExecFns;

verus! {

/// Relies on `String::push`: appends `c` to `s`.
#[verifier::external_body]
pub(crate) fn push_char(s: &mut String, c: char)
    ensures
        final(s)@ == old(s)@.push(c),
{
    s.push(c)
}


/// The smallest of three integers.
pub open spec fn min3_spec(a: int, b: int, c: int) -> int {
    if a <= b && a <= c {
        a
    } else if b <= c {
        b
    } else {
        c
    }
}

/// Number of characters (Unicode scalar values) in `s`.
pub fn cnt(s: &str) -> (r: usize)
    ensures
        r == s@.len(),
{
    s.unicode_len()
}

/// The smallest of `a`, `b` and `c`.
pub fn min3(a: u8, b: u8, c: u8) -> (r: u8)
    ensures
        r == min3_spec(a as int, b as int, c as int),
{
    if a <= b && a <= c {
        a
    } else if b <= c {
        b
    } else {
        c
    }
}


/// Character-based access to text, by `i32` positions.
pub trait StringHelpers {
    /// The characters of the text.
    spec fn char_seq(&self) -> Seq<char>;

    /// Number of characters.
    fn char_count(&self) -> (r: i32)
        requires
            self.char_seq().len() <= i32::MAX,
        ensures
            r == self.char_seq().len(),
    ;

    /// The character at position `x`.
    fn nth_char(&self, x: i32) -> (c: char)
        requires
            0 <= x < self.char_seq().len(),
        ensures
            c == self.char_seq()[x as int],
    ;
}

impl StringHelpers for str {
    open spec fn char_seq(&self) -> Seq<char> {
        self@
    }

    fn char_count(&self) -> (r: i32) {
        self.unicode_len() as i32
    }

    fn nth_char(&self, x: i32) -> (c: char) {
        self.get_char(x as usize)
    }
}

/// `0, 1, ..., n` as bytes.
pub open spec fn counting_row(n: nat) -> Seq<u8> {
    Seq::new(n + 1, |i: int| i as u8)
}

/// A pair of texts with the first row and column of their comparison table:
/// the row `0, 1, ..., len(str1)`, and under it one row per character of
/// `str2` that starts with its position plus one.
pub struct StringComparer<'a> {
    str1: &'a str,
    str2: &'a str,
    matrix: Vec<Vec<u8>>,
}

impl<'a> StringComparer<'a> {
    /// The first text.
    pub closed spec fn first(&self) -> Seq<char> {
        self.str1@
    }

    /// The second text.
    pub closed spec fn second(&self) -> Seq<char> {
        self.str2@
    }

    /// The rows of the table.
    pub closed spec fn rows(&self) -> Seq<Seq<u8>> {
        self.matrix@.map_values(|r: Vec<u8>| r@)
    }

    /// Starts the comparison of `str1` with `str2`. Row numbers past 255
    /// wrap around, as bytes do.
    pub fn new(str1: &'a str, str2: &'a str) -> (r: StringComparer<'a>)
        requires
            str1@.len() < 255,
        ensures
            r.first() == str1@,
            r.second() == str2@,
            r.rows().len() == str2@.len() + 1,
            r.rows()[0] == counting_row(str1@.len()),
            forall|y: int|
                0 <= y < str2@.len() ==> #[trigger] r.rows()[y + 1] == seq![((y + 1) % 256) as u8],
    {
        let mut matrix: Vec<Vec<u8>> = Vec::new();
        let char_count: u8 = str1.unicode_len() as u8;
        let mut first: Vec<u8> = Vec::new();
        let mut x: u8 = 0;
        while x < char_count + 1
            invariant
                char_count == str1@.len(),
                char_count < 255,
                x <= char_count + 1,
                first@ == counting_row(char_count as nat).take(x as int),
            decreases char_count + 1 - x,
        {
            first.push(x);
            x = x + 1;
            assert(first@ =~= counting_row(char_count as nat).take(x as int));
        }
        assert(first@ =~= counting_row(char_count as nat));
        matrix.push(first);
        let n = str2.unicode_len();
        let mut y: usize = 0;
        while y < n
            invariant
                n == str2@.len(),
                y <= n,
                matrix@.len() == y + 1,
                matrix@[0]@ == counting_row(str1@.len()),
                forall|z: int| 0 <= z < y ==> #[trigger] matrix@[z + 1]@ == seq![((z + 1) % 256) as u8],
            decreases n - y,
        {
            let row: Vec<u8> = vec![((y + 1) % 256) as u8];
            assert(row@ =~= seq![((y + 1) % 256) as u8]);
            matrix.push(row);
            y = y + 1;
        }
        StringComparer { str1, str2, matrix }
    }
}

} // verus!
