use vstd::prelude::*;

verus! {

/// Largest row or column count a matrix may have. Index arithmetic on
/// row-major buffers then stays within `usize` on every target.
pub const DIM_MAX: usize = 32768;

/// Largest magnitude an element may have. Together with `DIM_MAX` this keeps
/// every partial sum of a product row-times-column within `i64`.
pub const ENTRY_MAX: i64 = 1048576;

/// A dense matrix: a row-major buffer of `rows * cols` elements. The type
/// owns its buffer; rectangular slices are taken by copying, and two slices
/// handed to sibling subproblems therefore never alias.
pub struct Matrix {
    pub rows: usize,
    pub cols: usize,
    pub data: Vec<i64>,
}

impl Matrix {
    /// The buffer holds exactly one element per position of the rectangle.
    pub open spec fn wf(self) -> bool {
        self.data.len() == self.rows * self.cols
    }

    /// The element in row `i`, column `j`, as a mathematical integer.
    pub open spec fn entry(self, i: int, j: int) -> int {
        self.data[i * (self.cols as int) + j] as int
    }

    /// Every element is at most `ENTRY_MAX` in magnitude.
    pub open spec fn entries_bounded(self) -> bool {
        forall|t: int|
            0 <= t < self.data.len() ==> -(ENTRY_MAX as int) <= #[trigger] self.data[t]
                <= ENTRY_MAX as int
    }

    /// A matrix the multiplication routines accept as an operand.
    pub open spec fn ok(self) -> bool {
        &&& self.wf()
        &&& self.rows <= DIM_MAX
        &&& self.cols <= DIM_MAX
        &&& self.entries_bounded()
    }

    /// The all-zero matrix of the given shape.
    pub fn zeros(rows: usize, cols: usize) -> (r: Matrix)
        requires
            rows <= DIM_MAX,
            cols <= DIM_MAX,
        ensures
            r.ok(),
            r.rows == rows,
            r.cols == cols,
            forall|i: int, j: int| 0 <= i < rows && 0 <= j < cols ==> r.entry(i, j) == 0,
    {
        proof {
            assert(rows * cols <= DIM_MAX * DIM_MAX) by (nonlinear_arith)
                requires rows <= DIM_MAX, cols <= DIM_MAX;
        }
        let n = rows * cols;
        let mut data: Vec<i64> = Vec::new();
        let mut t: usize = 0;
        while t < n
            invariant
                t <= n,
                data.len() == t,
                forall|u: int| 0 <= u < t ==> data[u] == 0,
            decreases n - t,
        {
            data.push(0);
            t += 1;
        }
        let r = Matrix { rows, cols, data };
        proof {
            assert forall|i: int, j: int|
                0 <= i < rows && 0 <= j < cols implies r.entry(i, j) == 0 by {
                lemma_row_major_index(i, j, rows as int, cols as int);
            }
        }
        r
    }

    /// Read one element.
    pub fn get(&self, i: usize, j: usize) -> (v: i64)
        requires
            self.wf(),
            i < self.rows,
            j < self.cols,
        ensures
            v as int == self.entry(i as int, j as int),
    {
        proof {
            lemma_row_major_index(i as int, j as int, self.rows as int, self.cols as int);
            assert(i * self.cols + j < self.rows * self.cols);
        }
        self.data[i * self.cols + j]
    }

    /// The rows `lo` to `hi` (exclusive) of `a`, as a matrix of their own.
    pub fn rows_slice(a: &Matrix, lo: usize, hi: usize) -> (r: Matrix)
        requires
            a.ok(),
            lo <= hi <= a.rows,
        ensures
            r.ok(),
            r.rows == hi - lo,
            r.cols == a.cols,
            forall|i: int, j: int|
                0 <= i < hi - lo && 0 <= j < a.cols ==> r.entry(i, j) == a.entry(lo + i, j),
    {
        proof {
            assert(lo * a.cols <= hi * a.cols <= a.rows * a.cols) by (nonlinear_arith)
                requires lo <= hi <= a.rows;
        }
        let start = lo * a.cols;
        let end = hi * a.cols;
        let mut data: Vec<i64> = Vec::new();
        let mut t: usize = start;
        while t < end
            invariant
                a.ok(),
                start <= t <= end,
                end <= a.data.len(),
                data.len() == t - start,
                forall|u: int| 0 <= u < t - start ==> data[u] == a.data[start + u],
                forall|u: int|
                    0 <= u < t - start ==> -(ENTRY_MAX as int) <= #[trigger] data[u]
                        <= ENTRY_MAX as int,
            decreases end - t,
        {
            data.push(a.data[t]);
            t += 1;
        }
        let r = Matrix { rows: hi - lo, cols: a.cols, data };
        proof {
            assert((hi - lo) * (a.cols as int) == hi * (a.cols as int) - lo * (a.cols as int))
                by (nonlinear_arith);
            assert forall|i: int, j: int|
                0 <= i < hi - lo && 0 <= j < a.cols implies r.entry(i, j) == a.entry(lo + i, j) by {
                let c = a.cols as int;
                assert(0 <= i * c + j < (hi - lo) * c && (lo + i) * c + j == lo * c + (i * c + j))
                    by (nonlinear_arith)
                    requires 0 <= i < hi - lo, 0 <= j < c;
                assert(r.data[i * c + j] == a.data[lo * c + (i * c + j)]);
            }
        }
        r
    }

    /// The columns `lo` to `hi` (exclusive) of `a`, as a matrix of their own.
    pub fn cols_slice(a: &Matrix, lo: usize, hi: usize) -> (r: Matrix)
        requires
            a.ok(),
            lo <= hi <= a.cols,
        ensures
            r.ok(),
            r.rows == a.rows,
            r.cols == hi - lo,
            forall|i: int, j: int|
                0 <= i < a.rows && 0 <= j < hi - lo ==> r.entry(i, j) == a.entry(i, lo + j),
    {
        let w = hi - lo;
        let mut data: Vec<i64> = Vec::new();
        let mut i: usize = 0;
        while i < a.rows
            invariant
                a.ok(),
                lo <= hi <= a.cols,
                w == hi - lo,
                i <= a.rows,
                data.len() == i * w,
                forall|i2: int, j2: int|
                    0 <= i2 < i && 0 <= j2 < w ==> #[trigger] data[i2 * (w as int) + j2]
                        == a.data[i2 * (a.cols as int) + lo + j2],
                forall|u: int|
                    0 <= u < data.len() ==> -(ENTRY_MAX as int) <= #[trigger] data[u]
                        <= ENTRY_MAX as int,
            decreases a.rows - i,
        {
            proof {
                assert(i * a.cols + a.cols <= a.rows * a.cols && i * w + w <= a.rows * w)
                    by (nonlinear_arith)
                    requires i < a.rows, w <= a.cols;
            }
            let base = i * a.cols;
            let mut j: usize = lo;
            while j < hi
                invariant
                    a.ok(),
                    lo <= hi <= a.cols,
                    w == hi - lo,
                    i < a.rows,
                    lo <= j <= hi,
                    base == i * a.cols,
                    base + a.cols <= a.data.len(),
                    data.len() == i * w + (j - lo),
                    forall|i2: int, j2: int|
                        0 <= i2 < i && 0 <= j2 < w ==> #[trigger] data[i2 * (w as int) + j2]
                            == a.data[i2 * (a.cols as int) + lo + j2],
                    forall|j2: int|
                        0 <= j2 < j - lo ==> #[trigger] data[(i as int) * (w as int) + j2]
                            == a.data[(i as int) * (a.cols as int) + lo + j2],
                    forall|u: int|
                        0 <= u < data.len() ==> -(ENTRY_MAX as int) <= #[trigger] data[u]
                            <= ENTRY_MAX as int,
                decreases hi - j,
            {
                data.push(a.data[base + j]);
                proof {
                    assert forall|i2: int, j2: int|
                        0 <= i2 < i && 0 <= j2 < w implies #[trigger] data[i2 * (w as int) + j2]
                            == a.data[i2 * (a.cols as int) + lo + j2] by {
                        lemma_earlier_row_index(i2, j2, i as int, w as int);
                    }
                }
                j += 1;
            }
            proof {
                assert((i + 1) * (w as int) == i * (w as int) + w) by (nonlinear_arith);
                assert forall|i2: int, j2: int|
                    0 <= i2 < i + 1 && 0 <= j2 < w implies #[trigger] data[i2 * (w as int) + j2]
                        == a.data[i2 * (a.cols as int) + lo + j2] by {
                    if i2 == i {
                        assert(data[(i as int) * (w as int) + j2] == a.data[(i as int) * (
                        a.cols as int) + lo + j2]);
                    }
                }
            }
            i += 1;
        }
        let r = Matrix { rows: a.rows, cols: w, data };
        proof {
            assert forall|i: int, j: int|
                0 <= i < a.rows && 0 <= j < hi - lo implies r.entry(i, j) == a.entry(i, lo + j) by {
                assert(r.data[i * (w as int) + j] == a.data[i * (a.cols as int) + lo + j]);
            }
        }
        r
    }

    /// `top` stacked above `bot`: the rows of `top`, then those of `bot`.
    pub fn stack_rows(top: Matrix, bot: Matrix) -> (r: Matrix)
        requires
            top.wf(),
            bot.wf(),
            top.cols == bot.cols,
            top.rows + bot.rows <= DIM_MAX,
        ensures
            r.wf(),
            r.rows == top.rows + bot.rows,
            r.cols == top.cols,
            forall|i: int, j: int|
                0 <= i < top.rows && 0 <= j < top.cols ==> r.entry(i, j) == top.entry(i, j),
            forall|i: int, j: int|
                top.rows <= i < top.rows + bot.rows && 0 <= j < top.cols ==> r.entry(i, j)
                    == bot.entry(i - top.rows, j),
    {
        let Matrix { rows: tr, cols: tc, data: mut data } = top;
        let Matrix { rows: br, cols: _bc, data: mut bd } = bot;
        let ghost tdata = data@;
        let ghost bdata = bd@;
        proof {
            assert((tr + br) * (tc as int) == tr * (tc as int) + br * (tc as int))
                by (nonlinear_arith);
        }
        data.append(&mut bd);
        let r = Matrix { rows: tr + br, cols: tc, data };
        proof {
            let c = tc as int;
            assert(r.data@ == tdata + bdata);
            assert(tdata.len() == tr * c);
            assert(bdata.len() == br * c);
            assert forall|i: int, j: int|
                0 <= i < tr && 0 <= j < c implies r.entry(i, j) == top.entry(i, j) by {
                assert(0 <= i * c + j && i * c + j < tr * c) by (nonlinear_arith)
                    requires 0 <= i < tr as int, 0 <= j < c;
                assert(r.data[i * c + j] == tdata[i * c + j]);
            }
            assert forall|i: int, j: int|
                tr <= i < tr + br && 0 <= j < c implies r.entry(i, j) == bot.entry(i - tr, j) by {
                assert(i * c + j == tr * c + ((i - tr) * c + j) && 0 <= (i - tr) * c + j
                    && (i - tr) * c + j < br * c) by (nonlinear_arith)
                    requires tr <= i < tr as int + br as int, 0 <= j < c;
                assert(r.data[i * c + j] == bdata[(i - tr) * c + j]);
            }
        }
        r
    }

    /// `lhs` laid beside `rhs`: each row of the result is the matching row of
    /// `lhs` followed by the matching row of `rhs`.
    pub fn stack_cols(lhs: Matrix, rhs: Matrix) -> (r: Matrix)
        requires
            lhs.wf(),
            rhs.wf(),
            lhs.rows == rhs.rows,
            lhs.rows <= DIM_MAX,
            lhs.cols + rhs.cols <= DIM_MAX,
        ensures
            r.wf(),
            r.rows == lhs.rows,
            r.cols == lhs.cols + rhs.cols,
            forall|i: int, j: int|
                0 <= i < lhs.rows && 0 <= j < lhs.cols ==> r.entry(i, j) == lhs.entry(i, j),
            forall|i: int, j: int|
                0 <= i < lhs.rows && lhs.cols <= j < lhs.cols + rhs.cols ==> r.entry(i, j)
                    == rhs.entry(i, j - lhs.cols),
    {
        let m = lhs.rows;
        let wl = lhs.cols;
        let wr = rhs.cols;
        let w = wl + wr;
        let mut data: Vec<i64> = Vec::new();
        let mut i: usize = 0;
        while i < m
            invariant
                lhs.wf(),
                rhs.wf(),
                m == lhs.rows == rhs.rows,
                wl == lhs.cols,
                wr == rhs.cols,
                w == wl + wr,
                m <= DIM_MAX,
                w <= DIM_MAX,
                i <= m,
                data.len() == i * w,
                forall|i2: int, j2: int|
                    0 <= i2 < i && 0 <= j2 < wl ==> #[trigger] data[i2 * (w as int) + j2]
                        == lhs.data[i2 * (wl as int) + j2],
                forall|i2: int, j2: int|
                    0 <= i2 < i && 0 <= j2 < wr ==> #[trigger] data[i2 * (w as int) + wl + j2]
                        == rhs.data[i2 * (wr as int) + j2],
            decreases m - i,
        {
            proof {
                assert(i * wl + wl <= m * wl && i * wr + wr <= m * wr && i * w + w <= m * w)
                    by (nonlinear_arith)
                    requires i < m;
            }
            let lbase = i * wl;
            let rbase = i * wr;
            let mut j: usize = 0;
            while j < wl
                invariant
                    lhs.wf(),
                    rhs.wf(),
                    m == lhs.rows == rhs.rows,
                    wl == lhs.cols,
                    wr == rhs.cols,
                    w == wl + wr,
                    i < m,
                    j <= wl,
                    lbase == i * wl,
                    lbase + wl <= lhs.data.len(),
                    data.len() == i * w + j,
                    forall|i2: int, j2: int|
                        0 <= i2 < i && 0 <= j2 < wl ==> #[trigger] data[i2 * (w as int) + j2]
                            == lhs.data[i2 * (wl as int) + j2],
                    forall|i2: int, j2: int|
                        0 <= i2 < i && 0 <= j2 < wr ==> #[trigger] data[i2 * (w as int) + wl + j2]
                            == rhs.data[i2 * (wr as int) + j2],
                    forall|j2: int|
                        0 <= j2 < j ==> #[trigger] data[(i as int) * (w as int) + j2]
                            == lhs.data[(i as int) * (wl as int) + j2],
                decreases wl - j,
            {
                data.push(lhs.data[lbase + j]);
                proof {
                    assert forall|i2: int, j2: int|
                        0 <= i2 < i && 0 <= j2 < wl implies #[trigger] data[i2 * (w as int) + j2]
                            == lhs.data[i2 * (wl as int) + j2] by {
                        lemma_earlier_row_index(i2, j2, i as int, w as int);
                    }
                    assert forall|i2: int, j2: int|
                        0 <= i2 < i && 0 <= j2 < wr implies #[trigger] data[i2 * (w as int) + wl
                            + j2] == rhs.data[i2 * (wr as int) + j2] by {
                        lemma_earlier_row_index(i2, wl + j2, i as int, w as int);
                        assert(i2 * (w as int) + (wl + j2) == i2 * (w as int) + wl + j2);
                    }
                }
                j += 1;
            }
            let mut j: usize = 0;
            while j < wr
                invariant
                    lhs.wf(),
                    rhs.wf(),
                    m == lhs.rows == rhs.rows,
                    wl == lhs.cols,
                    wr == rhs.cols,
                    w == wl + wr,
                    i < m,
                    j <= wr,
                    rbase == i * wr,
                    rbase + wr <= rhs.data.len(),
                    data.len() == i * w + wl + j,
                    forall|i2: int, j2: int|
                        0 <= i2 < i && 0 <= j2 < wl ==> #[trigger] data[i2 * (w as int) + j2]
                            == lhs.data[i2 * (wl as int) + j2],
                    forall|i2: int, j2: int|
                        0 <= i2 < i && 0 <= j2 < wr ==> #[trigger] data[i2 * (w as int) + wl + j2]
                            == rhs.data[i2 * (wr as int) + j2],
                    forall|j2: int|
                        0 <= j2 < wl ==> #[trigger] data[(i as int) * (w as int) + j2]
                            == lhs.data[(i as int) * (wl as int) + j2],
                    forall|j2: int|
                        0 <= j2 < j ==> #[trigger] data[(i as int) * (w as int) + wl + j2]
                            == rhs.data[(i as int) * (wr as int) + j2],
                decreases wr - j,
            {
                data.push(rhs.data[rbase + j]);
                proof {
                    assert forall|i2: int, j2: int|
                        0 <= i2 < i && 0 <= j2 < wl implies #[trigger] data[i2 * (w as int) + j2]
                            == lhs.data[i2 * (wl as int) + j2] by {
                        lemma_earlier_row_index(i2, j2, i as int, w as int);
                    }
                    assert forall|i2: int, j2: int|
                        0 <= i2 < i && 0 <= j2 < wr implies #[trigger] data[i2 * (w as int) + wl
                            + j2] == rhs.data[i2 * (wr as int) + j2] by {
                        lemma_earlier_row_index(i2, wl + j2, i as int, w as int);
                        assert(i2 * (w as int) + (wl + j2) == i2 * (w as int) + wl + j2);
                    }
                }
                j += 1;
            }
            proof {
                assert((i + 1) * (w as int) == i * (w as int) + w) by (nonlinear_arith);
                assert forall|i2: int, j2: int|
                    0 <= i2 < i + 1 && 0 <= j2 < wl implies #[trigger] data[i2 * (w as int) + j2]
                        == lhs.data[i2 * (wl as int) + j2] by {
                    if i2 == i {
                        assert(data[(i as int) * (w as int) + j2] == lhs.data[(i as int) * (
                        wl as int) + j2]);
                    }
                }
                assert forall|i2: int, j2: int|
                    0 <= i2 < i + 1 && 0 <= j2 < wr implies #[trigger] data[i2 * (w as int) + wl
                        + j2] == rhs.data[i2 * (wr as int) + j2] by {
                    if i2 == i {
                        assert(data[(i as int) * (w as int) + wl + j2] == rhs.data[(i as int) * (
                        wr as int) + j2]);
                    }
                }
            }
            i += 1;
        }
        let r = Matrix { rows: m, cols: w, data };
        proof {
            assert forall|i: int, j: int|
                0 <= i < m && 0 <= j < wl implies r.entry(i, j) == lhs.entry(i, j) by {
                assert(r.data[i * (w as int) + j] == lhs.data[i * (wl as int) + j]);
            }
            assert forall|i: int, j: int|
                0 <= i < m && wl <= j < w implies r.entry(i, j) == rhs.entry(i, j - wl) by {
                assert(i * (w as int) + j == i * (w as int) + wl + (j - wl));
                assert(r.data[i * (w as int) + wl + (j - wl)] == rhs.data[i * (wr as int) + (j
                    - wl)]);
            }
        }
        r
    }
}

/// A row-major position lies inside the buffer of its rectangle.
pub proof fn lemma_row_major_index(i: int, j: int, rows: int, cols: int)
    requires
        0 <= i < rows,
        0 <= j < cols,
    ensures
        0 <= i * cols + j < rows * cols,
{
    assert(0 <= i * cols + j < rows * cols) by (nonlinear_arith)
        requires 0 <= i < rows, 0 <= j < cols;
}

/// A position in a row written before row `i` lies below the start of row `i`.
pub proof fn lemma_earlier_row_index(i2: int, j2: int, i: int, w: int)
    requires
        0 <= i2 < i,
        0 <= j2 < w,
    ensures
        0 <= i2 * w + j2,
        i2 * w + j2 < i * w,
{
    assert(0 <= i2 * w + j2 && i2 * w + j2 < i * w) by (nonlinear_arith)
        requires 0 <= i2 < i, 0 <= j2 < w;
}

} // verus!
