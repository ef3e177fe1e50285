//! A rectangular table addressed by two arbitrary, possibly negative, integer
//! ranges, so that a dynamic program can keep its border at index -1.
use vstd::prelude::*;
use std::ops::Range;
use vstd::string::StringExecFns;
use crate::helpers::push_char;

verus! {

/// Where `DistMatrix::fill` takes its values from, one per cell.
pub enum FillSource<T> {
    /// The same value for every cell.
    Repeat(T),
    /// The values of the list in order, until it runs out.
    List(Vec<T>),
}

impl<T> FillSource<T> {
    /// The `n`-th value the source hands out, if it has one.
    pub open spec fn nth(&self, n: int) -> Option<T> {
        match self {
            FillSource::Repeat(v) => Some(*v),
            FillSource::List(vs) => if 0 <= n < vs@.len() {
                Some(vs@[n])
            } else {
                None
            },
        }
    }
}

/// Number of integers in a range; zero for a reversed one.
pub open spec fn range_len(r: Range<i32>) -> int {
    if r.start <= r.end {
        r.end - r.start
    } else {
        0
    }
}

/// Whether `v` lies in the half-open range `r`.
pub open spec fn in_range(r: Range<i32>, v: int) -> bool {
    r.start <= v < r.end
}

/// Position of the cell `(x, y)` in the order in which `fill` visits the
/// cells of `rx` by `ry`: column after column, each from the top.
pub open spec fn fill_order(rx: Range<i32>, ry: Range<i32>, x: int, y: int) -> int {
    (x - rx.start) * range_len(ry) + (y - ry.start)
}

/// Cells are visited in `fill_order`: `(p, q)` comes before `(x, y)` exactly
/// when it lies in an earlier column, or higher in the same one.
proof fn lemma_fill_order(rx: Range<i32>, ry: Range<i32>, p: int, q: int, x: int, y: int)
    requires
        in_range(rx, p),
        in_range(ry, q),
        rx.start <= x,
        ry.start <= y <= ry.end,
    ensures
        (p < x || (p == x && q < y)) <==> fill_order(rx, ry, p, q) < fill_order(rx, ry, x, y),
{
    let h = range_len(ry);
    let a = p - rx.start;
    let b = x - rx.start;
    let c = q - ry.start;
    let d = y - ry.start;
    assert(0 <= c < h && 0 <= d <= h);
    if a < b {
        assert(a * h + h <= b * h) by (nonlinear_arith)
            requires
                a < b,
                0 < h,
        ;
    }
    if a > b {
        assert(b * h + h <= a * h) by (nonlinear_arith)
            requires
                b < a,
                0 <= h,
        ;
    }
}

/// A table of values of type `T` over the coordinates `rangex` by `rangey`.
pub struct DistMatrix<T> {
    pub rangex: Range<i32>,
    pub rangey: Range<i32>,
    m: Vec<Vec<T>>,
}

impl<T: Copy> DistMatrix<T> {
    /// The range of the first coordinate.
    pub closed spec fn x_range(&self) -> Range<i32> {
        self.rangex
    }

    /// The range of the second coordinate.
    pub closed spec fn y_range(&self) -> Range<i32> {
        self.rangey
    }

    /// The ranges are ordered, their lengths fit in an `i32`, and the storage
    /// holds one row of `rangex` cells for each coordinate of `rangey`.
    pub closed spec fn wf(&self) -> bool {
        &&& self.rangex.start <= self.rangex.end
        &&& self.rangey.start <= self.rangey.end
        &&& self.rangex.end - self.rangex.start <= i32::MAX
        &&& self.rangey.end - self.rangey.start <= i32::MAX
        &&& self.m@.len() == self.rangey.end - self.rangey.start
        &&& forall|r: int|
            0 <= r < self.m@.len() ==> #[trigger] self.m@[r]@.len() == self.rangex.end
                - self.rangex.start
    }

    /// Whether `(x, y)` is a coordinate of the table.
    pub open spec fn contains(&self, x: int, y: int) -> bool {
        in_range(self.x_range(), x) && in_range(self.y_range(), y)
    }

    /// The value at `(x, y)`.
    pub closed spec fn cell(&self, x: int, y: int) -> T {
        self.m@[y - self.rangey.start]@[x - self.rangex.start]
    }

    /// A table over `rx` by `ry` with every cell set to `default_val`.
    pub fn new(rx: Range<i32>, ry: Range<i32>, default_val: T) -> (r: DistMatrix<T>)
        requires
            rx.start <= rx.end,
            ry.start <= ry.end,
            rx.end - rx.start <= i32::MAX,
            ry.end - ry.start <= i32::MAX,
        ensures
            r.wf(),
            r.x_range() == rx,
            r.y_range() == ry,
            forall|x: int, y: int| r.contains(x, y) ==> #[trigger] r.cell(x, y) == default_val,
    {
        let w = (rx.end - rx.start) as usize;
        let h = (ry.end - ry.start) as usize;
        let mut m: Vec<Vec<T>> = Vec::new();
        while m.len() < h
            invariant
                m@.len() <= h,
                forall|r: int| 0 <= r < m@.len() ==> #[trigger] m@[r]@.len() == w,
                forall|r: int, c: int|
                    0 <= r < m@.len() && 0 <= c < w ==> #[trigger] m@[r]@[c] == default_val,
            decreases h - m@.len(),
        {
            let mut row: Vec<T> = Vec::new();
            while row.len() < w
                invariant
                    row@.len() <= w,
                    forall|c: int| 0 <= c < row@.len() ==> #[trigger] row@[c] == default_val,
                decreases w - row@.len(),
            {
                row.push(default_val);
            }
            m.push(row);
        }
        DistMatrix { rangex: rx, rangey: ry, m }
    }

    /// The value at `(x, y)`.
    pub fn get(&self, x: i32, y: i32) -> (r: T)
        requires
            self.wf(),
            self.contains(x as int, y as int),
        ensures
            r == self.cell(x as int, y as int),
    {
        let dx = (x as i64 - self.rangex.start as i64) as usize;
        let dy = (y as i64 - self.rangey.start as i64) as usize;
        self.m[dy][dx]
    }

    /// Stores `v` at `(x, y)`; every other cell keeps its value.
    pub fn set(&mut self, x: i32, y: i32, v: T)
        requires
            old(self).wf(),
            old(self).contains(x as int, y as int),
        ensures
            final(self).wf(),
            final(self).x_range() == old(self).x_range(),
            final(self).y_range() == old(self).y_range(),
            forall|p: int, q: int|
                #![trigger final(self).cell(p, q)]
                final(self).contains(p, q) ==> final(self).cell(p, q) == if p == x && q == y {
                    v
                } else {
                    old(self).cell(p, q)
                },
    {
        let dx = (x as i64 - self.rangex.start as i64) as usize;
        let dy = (y as i64 - self.rangey.start as i64) as usize;
        self.m[dy][dx] = v;
        assert(forall|r: int| 0 <= r < self.m@.len() && r != dy ==> self.m@[r] == old(self).m@[r]);
    }

    /// Assigns the values of `values`, one per cell, to the cells of `rx` by
    /// `ry` in `fill_order`; when the source runs out the remaining cells keep
    /// their values. Cells outside `rx` by `ry` are left alone.
    pub fn fill(&mut self, rx: &Range<i32>, ry: &Range<i32>, values: &FillSource<T>)
        requires
            old(self).wf(),
            range_len(*rx) > 0 && range_len(*ry) > 0 ==> {
                &&& old(self).x_range().start <= rx.start
                &&& rx.end <= old(self).x_range().end
                &&& old(self).y_range().start <= ry.start
                &&& ry.end <= old(self).y_range().end
            },
        ensures
            final(self).wf(),
            final(self).x_range() == old(self).x_range(),
            final(self).y_range() == old(self).y_range(),
            forall|x: int, y: int|
                #![trigger final(self).cell(x, y)]
                final(self).contains(x, y) ==> final(self).cell(x, y) == if in_range(*rx, x)
                    && in_range(*ry, y) && values.nth(fill_order(*rx, *ry, x, y)) is Some {
                    values.nth(fill_order(*rx, *ry, x, y))->0
                } else {
                    old(self).cell(x, y)
                },
    {
        let ghost rx0 = *rx;
        let ghost ry0 = *ry;
        let ghost start = *old(self);
        let mut n: usize = 0;
        let mut x = rx.start;
        while x < rx.end
            invariant
                self.wf(),
                start == *old(self),
                self.x_range() == start.x_range(),
                self.y_range() == start.y_range(),
                rx0 == *rx,
                ry0 == *ry,
                rx.start <= x,
                x <= rx.end || x == rx.start,
                range_len(*rx) > 0 && range_len(*ry) > 0 ==> {
                    &&& start.x_range().start <= rx.start
                    &&& rx.end <= start.x_range().end
                    &&& start.y_range().start <= ry.start
                    &&& ry.end <= start.y_range().end
                },
                values is List ==> n == fill_order(*rx, *ry, x as int, ry.start as int),
                forall|p: int, q: int|
                    #![trigger self.cell(p, q)]
                    self.contains(p, q) ==> self.cell(p, q) == if in_range(*rx, p) && p < x
                        && in_range(*ry, q) && values.nth(fill_order(*rx, *ry, p, q)) is Some {
                        values.nth(fill_order(*rx, *ry, p, q))->0
                    } else {
                        start.cell(p, q)
                    },
            decreases rx.end - x,
        {
            let mut y = ry.start;
            while y < ry.end
                invariant
                    self.wf(),
                    start == *old(self),
                    self.x_range() == start.x_range(),
                    self.y_range() == start.y_range(),
                    rx.start <= x < rx.end,
                    ry.start <= y,
                    y <= ry.end || y == ry.start,
                    range_len(*ry) > 0 ==> {
                        &&& start.x_range().start <= rx.start
                        &&& rx.end <= start.x_range().end
                        &&& start.y_range().start <= ry.start
                        &&& ry.end <= start.y_range().end
                    },
                    values is List ==> n == fill_order(*rx, *ry, x as int, y as int),
                    forall|p: int, q: int|
                        #![trigger self.cell(p, q)]
                        self.contains(p, q) ==> self.cell(p, q) == if in_range(*rx, p) && (p < x
                            || (p == x && q < y)) && in_range(*ry, q) && values.nth(
                            fill_order(*rx, *ry, p, q),
                        ) is Some {
                            values.nth(fill_order(*rx, *ry, p, q))->0
                        } else {
                            start.cell(p, q)
                        },
                decreases ry.end - y,
            {
                let v = match values {
                    FillSource::Repeat(v) => *v,
                    FillSource::List(vs) => {
                        if n < vs.len() {
                            let v = vs[n];
                            n = n + 1;
                            v
                        } else {
                            proof {
                                assert forall|p: int, q: int|
                                    #![trigger self.cell(p, q)]
                                    self.contains(p, q) && in_range(*rx, p) && in_range(*ry, q)
                                        && !(p < x || (p == x && q < y)) implies values.nth(
                                    fill_order(*rx, *ry, p, q),
                                ) is None by {
                                    lemma_fill_order(*rx, *ry, p, q, x as int, y as int);
                                }
                            }
                            return ;
                        }
                    },
                };
                self.set(x, y, v);
                y = y + 1;
            }
            proof {
                let h = range_len(*ry);
                assert((x + 1 - rx.start) * h == (x - rx.start) * h + h) by (nonlinear_arith);
            }
            x = x + 1;
        }
    }

    /// Number of columns: the length of `rangex`.
    pub fn width(&self) -> (r: i32)
        requires
            self.wf(),
        ensures
            r == self.x_range().end - self.x_range().start,
    {
        self.rangex.end - self.rangex.start
    }

    /// Number of rows: the length of `rangey`.
    pub fn height(&self) -> (r: i32)
        requires
            self.wf(),
        ensures
            r == self.y_range().end - self.y_range().start,
    {
        self.rangey.end - self.rangey.start
    }

    /// The value at the largest coordinate of both ranges: where a dynamic
    /// program leaves its final score.
    pub fn get_last(&self) -> (r: &T)
        requires
            self.wf(),
            self.x_range().start < self.x_range().end,
            self.y_range().start < self.y_range().end,
        ensures
            *r == self.cell(self.x_range().end - 1, self.y_range().end - 1),
    {
        let dx = (self.width() - 1) as usize;
        let dy = (self.height() - 1) as usize;
        &self.m[dy][dx]
    }
}


/// The decimal digit for `d`.
pub open spec fn digit_char(d: nat) -> char {
    if d == 0 { '0' } else if d == 1 { '1' } else if d == 2 { '2' } else if d == 3 { '3' }
    else if d == 4 { '4' } else if d == 5 { '5' } else if d == 6 { '6' } else if d == 7 { '7' }
    else if d == 8 { '8' } else { '9' }
}

/// The decimal digits of `n`, without leading zeros.
pub open spec fn decimal(n: nat) -> Seq<char>
    decreases n,
{
    if n < 10 {
        seq![digit_char(n)]
    } else {
        decimal(n / 10).push(digit_char(n % 10))
    }
}

/// How one cell is shown: its number right-aligned in two columns, then a space.
pub open spec fn cell_text_spec(n: nat) -> Seq<char> {
    (if n < 10 {
        seq![' ']
    } else {
        Seq::empty()
    }) + decimal(n) + seq![' ']
}

/// The decimal digit for `d < 10`.
fn digit(d: usize) -> (c: char)
    requires
        d < 10,
    ensures
        c == digit_char(d as nat),
{
    match d {
        0 => '0',
        1 => '1',
        2 => '2',
        3 => '3',
        4 => '4',
        5 => '5',
        6 => '6',
        7 => '7',
        8 => '8',
        _ => '9',
    }
}

/// `v` as text: its decimal digits right-aligned in two columns, then a space.
fn cell_text(v: usize) -> (r: String)
    ensures
        r@ == cell_text_spec(v as nat),
{
    let mut tail: Vec<char> = Vec::new();
    let mut n = v;
    while n >= 10
        invariant
            decimal(v as nat) == decimal(n as nat) + tail@,
        decreases n,
    {
        let d = digit(n % 10);
        proof {
            assert(decimal(n as nat) == decimal((n / 10) as nat).push(d));
            assert(decimal((n / 10) as nat).push(d) + tail@ =~= decimal((n / 10) as nat) + (seq![d] + tail@));
        }
        let ghost before = tail@;
        tail.insert(0, d);
        assert(tail@ =~= seq![d] + before);
        n = n / 10;
    }
    let mut r = String::new();
    if v < 10 {
        push_char(&mut r, ' ');
    }
    let ghost lead = r@;
    push_char(&mut r, digit(n));
    let mut i: usize = 0;
    while i < tail.len()
        invariant
            i <= tail@.len(),
            r@ == lead + seq![digit_char(n as nat)] + tail@.take(i as int),
        decreases tail@.len() - i,
    {
        push_char(&mut r, tail[i]);
        assert(tail@.take(i + 1) =~= tail@.take(i as int).push(tail@[i as int]));
        i = i + 1;
    }
    push_char(&mut r, ' ');
    assert(tail@.take(tail@.len() as int) =~= tail@);
    assert(decimal(n as nat) == seq![digit_char(n as nat)]);
    assert(r@ =~= cell_text_spec(v as nat));
    r
}

impl DistMatrix<usize> {
    /// The cells `x0, x0 + 1, ..., x - 1` of row `y`, shown one after another.
    pub open spec fn row_text(&self, y: int, x: int) -> Seq<char>
        decreases x - self.x_range().start,
    {
        if x <= self.x_range().start {
            Seq::empty()
        } else {
            self.row_text(y, x - 1) + cell_text_spec(self.cell(x - 1, y) as nat)
        }
    }

    /// Row `y` as text: each cell right-aligned in two columns and followed
    /// by a space.
    pub fn row_to_string(&self, y: i32) -> (r: String)
        requires
            self.wf(),
            in_range(self.y_range(), y as int),
        ensures
            r@ == self.row_text(y as int, self.x_range().end as int),
    {
        let mut s = String::new();
        let start = self.rangex.start;
        let end = self.rangex.end;
        let mut x = start;
        while x < end
            invariant
                self.wf(),
                in_range(self.y_range(), y as int),
                start == self.x_range().start,
                end == self.x_range().end,
                start <= x <= end,
                s@ == self.row_text(y as int, x as int),
            decreases end - x,
        {
            let cell = cell_text(self.get(x, y));
            s.append(cell.as_str());
            x = x + 1;
        }
        s
    }
}

} // verus!
