use vstd::prelude::*;

use crate::matrix::Matrix;
use crate::pool::join_pair;
use crate::pool::spawn_pair;

verus! {

/// Dimension size at or below which the decomposers stop splitting and hand
/// the block to the flat kernel. The parallel entry points take the
/// threshold as a parameter; this is the customary choice.
pub const BLOCKSIZE: usize = 100;

/// The one error the library reports: operand or output shapes that disagree.
#[derive(Clone, Copy, Debug, PartialEq, Eq, Structural)]
pub struct ShapeMismatch;

/// The sum of `a[i][x] * b[x][j]` over `0 <= x < k`.
pub open spec fn dot_sum(a: Matrix, b: Matrix, i: int, j: int, k: nat) -> int
    decreases k,
{
    if k == 0 {
        0
    } else {
        dot_sum(a, b, i, j, (k - 1) as nat) + a.entry(i, k - 1) * b.entry(k - 1, j)
    }
}

/// The inner product of row `i` of `a` with column `j` of `b`.
pub open spec fn product_entry(a: Matrix, b: Matrix, i: int, j: int) -> int {
    dot_sum(a, b, i, j, a.cols as nat)
}

/// The operand and output shapes agree as matrix multiplication demands.
pub open spec fn dims_compatible(a: Matrix, b: Matrix, c: Matrix) -> bool {
    a.cols == b.rows && c.rows == a.rows && c.cols == b.cols
}

/// `c` is the matrix product of `a` and `b`.
pub open spec fn is_product(a: Matrix, b: Matrix, c: Matrix) -> bool {
    &&& dims_compatible(a, b, c)
    &&& forall|i: int, j: int|
        0 <= i < c.rows && 0 <= j < c.cols ==> c.entry(i, j) == product_entry(a, b, i, j)
}

/// What the multiplication routines ask of their operands.
pub open spec fn mul_pre(a: Matrix, b: Matrix, t: usize) -> bool {
    a.ok() && b.ok() && a.cols == b.rows && t >= 1
}

/// What each of them returns: a well-formed product of the operands.
pub open spec fn mul_post(a: Matrix, b: Matrix, r: Matrix) -> bool {
    r.wf() && is_product(a, b, r)
}

/// An inner product reads one row of `a` and one column of `b` and nothing
/// else, so matrices that agree there give the same sum.
proof fn lemma_dot_sum_congruent(
    a1: Matrix,
    b1: Matrix,
    i1: int,
    j1: int,
    a2: Matrix,
    b2: Matrix,
    i2: int,
    j2: int,
    k: nat,
)
    requires
        forall|t: int| 0 <= t < k ==> #[trigger] a1.entry(i1, t) == a2.entry(i2, t),
        forall|t: int| 0 <= t < k ==> #[trigger] b1.entry(t, j1) == b2.entry(t, j2),
    ensures
        dot_sum(a1, b1, i1, j1, k) == dot_sum(a2, b2, i2, j2, k),
    decreases k,
{
    if k > 0 {
        lemma_dot_sum_congruent(a1, b1, i1, j1, a2, b2, i2, j2, (k - 1) as nat);
    }
}

/// Splitting the rows partitions the product: if `a0` and `a1` are the rows
/// of `a` below and from `mid`, `c0` and `c1` their products with `b`, and
/// `out` holds `c0`'s rows above `c1`'s, then `out` is the product of `a`
/// and `b`. The two blocks of `out` never overlap.
proof fn lemma_row_split_product(
    a: Matrix,
    b: Matrix,
    a0: Matrix,
    a1: Matrix,
    c0: Matrix,
    c1: Matrix,
    out: Matrix,
    mid: int,
)
    requires
        a.cols == b.rows,
        0 <= mid <= a.rows,
        a0.rows == mid,
        a0.cols == a.cols,
        a1.rows == a.rows - mid,
        a1.cols == a.cols,
        forall|i: int, t: int|
            0 <= i < mid && 0 <= t < a.cols ==> #[trigger] a0.entry(i, t) == a.entry(i, t),
        forall|i: int, t: int|
            0 <= i < a.rows - mid && 0 <= t < a.cols ==> #[trigger] a1.entry(i, t) == a.entry(
                mid + i,
                t,
            ),
        is_product(a0, b, c0),
        is_product(a1, b, c1),
        out.rows == a.rows,
        out.cols == b.cols,
        forall|i: int, j: int|
            0 <= i < mid && 0 <= j < b.cols ==> #[trigger] out.entry(i, j) == c0.entry(i, j),
        forall|i: int, j: int|
            mid <= i < a.rows && 0 <= j < b.cols ==> #[trigger] out.entry(i, j) == c1.entry(
                i - mid,
                j,
            ),
    ensures
        is_product(a, b, out),
{
    assert forall|i: int, j: int|
        0 <= i < out.rows && 0 <= j < out.cols implies out.entry(i, j) == product_entry(
        a,
        b,
        i,
        j,
    ) by {
        if i < mid {
            lemma_dot_sum_congruent(a0, b, i, j, a, b, i, j, a.cols as nat);
        } else {
            lemma_dot_sum_congruent(a1, b, i - mid, j, a, b, i, j, a.cols as nat);
        }
    }
}

/// Splitting the columns partitions the product: if `b0` and `b1` are the
/// columns of `b` below and from `mid`, `c0` and `c1` the products of `a`
/// with them, and `out` holds `c0`'s columns beside `c1`'s, then `out` is
/// the product of `a` and `b`. The two blocks of `out` never overlap.
proof fn lemma_col_split_product(
    a: Matrix,
    b: Matrix,
    b0: Matrix,
    b1: Matrix,
    c0: Matrix,
    c1: Matrix,
    out: Matrix,
    mid: int,
)
    requires
        a.cols == b.rows,
        0 <= mid <= b.cols,
        b0.rows == b.rows,
        b0.cols == mid,
        b1.rows == b.rows,
        b1.cols == b.cols - mid,
        forall|t: int, j: int|
            0 <= t < b.rows && 0 <= j < mid ==> #[trigger] b0.entry(t, j) == b.entry(t, j),
        forall|t: int, j: int|
            0 <= t < b.rows && 0 <= j < b.cols - mid ==> #[trigger] b1.entry(t, j) == b.entry(
                t,
                mid + j,
            ),
        is_product(a, b0, c0),
        is_product(a, b1, c1),
        out.rows == a.rows,
        out.cols == b.cols,
        forall|i: int, j: int|
            0 <= i < a.rows && 0 <= j < mid ==> #[trigger] out.entry(i, j) == c0.entry(i, j),
        forall|i: int, j: int|
            0 <= i < a.rows && mid <= j < b.cols ==> #[trigger] out.entry(i, j) == c1.entry(
                i,
                j - mid,
            ),
    ensures
        is_product(a, b, out),
{
    assert forall|i: int, j: int|
        0 <= i < out.rows && 0 <= j < out.cols implies out.entry(i, j) == product_entry(
        a,
        b,
        i,
        j,
    ) by {
        if j < mid {
            lemma_dot_sum_congruent(a, b0, i, j, a, b, i, j, a.cols as nat);
        } else {
            lemma_dot_sum_congruent(a, b1, i, j - mid, a, b, i, j, a.cols as nat);
        }
    }
}

/// The product relation admits one result per operand pair: two outputs for
/// the same operands agree in shape, in every entry, and so in their whole
/// buffers. The flat kernel, the fork-join path and the task-pair path
/// therefore return identical matrices for identical operands, whatever
/// block threshold each was given and however the pool schedules the
/// subtasks.
pub proof fn lemma_product_unique(a: Matrix, b: Matrix, c1: Matrix, c2: Matrix)
    requires
        c1.wf(),
        c2.wf(),
        is_product(a, b, c1),
        is_product(a, b, c2),
    ensures
        c1.rows == c2.rows,
        c1.cols == c2.cols,
        forall|i: int, j: int|
            0 <= i < c1.rows && 0 <= j < c1.cols ==> c1.entry(i, j) == c2.entry(i, j),
        c1.data@ == c2.data@,
{
    let rows = c1.rows as int;
    let c = c1.cols as int;
    assert(c1.data.len() == c2.data.len());
    assert forall|u: int| 0 <= u < c1.data.len() implies c1.data[u] == c2.data[u] by {
        assert(0 < c && 0 < rows) by (nonlinear_arith)
            requires rows >= 0, c >= 0, 0 <= u < rows * c;
        let i = u / c;
        let j = u % c;
        assert(u == i * c + j && 0 <= j < c && 0 <= i < rows) by (nonlinear_arith)
            requires 0 < c, 0 <= u < rows * c, i == u / c, j == u % c;
        assert(c1.entry(i, j) == c2.entry(i, j));
    }
    assert(c1.data@ =~= c2.data@);
}

/// Basic matrix multiplication: overwrite `init` with the product of `left`
/// and `right`, computed by the flat kernel in one piece.
///
/// Relies on ndarray's two-dimensional `dot`: for element types other than
/// the machine floats it computes each output element as the sum over `x` of
/// `left[i][x] * right[x][j]` in plain `i64` arithmetic, which under the
/// `ENTRY_MAX` and `DIM_MAX` operand bounds stays within `i64`, so the
/// result is the exact integer product.
#[verifier::external_body]
pub fn matrix_dot_safe(left: &Matrix, right: &Matrix, init: &mut Matrix)
    requires
        left.ok(),
        right.ok(),
        left.cols == right.rows,
        old(init).wf(),
        old(init).rows == left.rows,
        old(init).cols == right.cols,
    ensures
        final(init).rows == old(init).rows,
        final(init).cols == old(init).cols,
        final(init).wf(),
        is_product(*left, *right, *final(init)),
{
    let a = ndarray::Array2::from_shape_vec((left.rows, left.cols), left.data.clone()).unwrap();
    let b = ndarray::Array2::from_shape_vec((right.rows, right.cols), right.data.clone()).unwrap();
    let c = a.dot(&b);
    init.data = c.iter().copied().collect();
}

/// How one call of the decomposer proceeds for a given output shape and
/// threshold: hand the block to the flat kernel, split the row axis, or
/// split the column axis. The row axis wins whenever it exceeds the
/// threshold, even if the column axis does too.
pub enum SplitChoice {
    Flat,
    Rows,
    Cols,
}

/// The decomposer's rule for a product of shape `m` by `n` at threshold `t`.
pub open spec fn split_choice(m: int, n: int, t: int) -> SplitChoice {
    if m <= t && n <= t {
        SplitChoice::Flat
    } else if m > t {
        SplitChoice::Rows
    } else {
        SplitChoice::Cols
    }
}

/// The decomposer's axis rule, as executable code.
pub fn choose_axis(m: usize, n: usize, t: usize) -> (c: SplitChoice)
    ensures
        c == split_choice(m as int, n as int, t as int),
{
    if m <= t && n <= t {
        SplitChoice::Flat
    } else if m > t {
        SplitChoice::Rows
    } else {
        SplitChoice::Cols
    }
}

/// The recursive decomposer, running sibling subproblems through the
/// fork-join pool.
fn dot_rec_rayon(left: &Matrix, right: &Matrix, threshold: usize) -> (out: Matrix)
    requires
        mul_pre(*left, *right, threshold),
    ensures
        mul_post(*left, *right, out),
    decreases left.rows + right.cols,
{
    let m = left.rows;
    let n = right.cols;
    match choose_axis(m, n, threshold) {
        SplitChoice::Flat => {
            let mut out = Matrix::zeros(m, n);
            matrix_dot_safe(left, right, &mut out);
            out
        },
        SplitChoice::Rows => {
            let mid = m / 2;
            let l0 = Matrix::rows_slice(left, 0, mid);
            let l1 = Matrix::rows_slice(left, mid, m);
            let ghost gl0 = l0;
            let ghost gl1 = l1;
            let (c0, c1) = join_pair(
                (move || -> (r: Matrix)
                    ensures
                        mul_post(l0, *right, r),
                    { dot_rec_rayon(&l0, right, threshold) }),
                (move || -> (r: Matrix)
                    ensures
                        mul_post(l1, *right, r),
                    { dot_rec_rayon(&l1, right, threshold) }),
            );
            let ghost gc0 = c0;
            let ghost gc1 = c1;
            let out = Matrix::stack_rows(c0, c1);
            proof {
                lemma_row_split_product(*left, *right, gl0, gl1, gc0, gc1, out, mid as int);
            }
            out
        },
        SplitChoice::Cols => {
            let mid = n / 2;
            let r0 = Matrix::cols_slice(right, 0, mid);
            let r1 = Matrix::cols_slice(right, mid, n);
            let ghost gr0 = r0;
            let ghost gr1 = r1;
            let (c0, c1) = join_pair(
                (move || -> (r: Matrix)
                    ensures
                        mul_post(*left, r0, r),
                    { dot_rec_rayon(left, &r0, threshold) }),
                (move || -> (r: Matrix)
                    ensures
                        mul_post(*left, r1, r),
                    { dot_rec_rayon(left, &r1, threshold) }),
            );
            let ghost gc0 = c0;
            let ghost gc1 = c1;
            let out = Matrix::stack_cols(c0, c1);
            proof {
                lemma_col_split_product(*left, *right, gr0, gr1, gc0, gc1, out, mid as int);
            }
            out
        },
    }
}

/// The recursive decomposer, running sibling subproblems as an explicit
/// pair of pool tasks.
fn dot_rec_spawn(left: &Matrix, right: &Matrix, threshold: usize) -> (out: Matrix)
    requires
        mul_pre(*left, *right, threshold),
    ensures
        mul_post(*left, *right, out),
    decreases left.rows + right.cols,
{
    let m = left.rows;
    let n = right.cols;
    match choose_axis(m, n, threshold) {
        SplitChoice::Flat => {
            let mut out = Matrix::zeros(m, n);
            matrix_dot_safe(left, right, &mut out);
            out
        },
        SplitChoice::Rows => {
            let mid = m / 2;
            let l0 = Matrix::rows_slice(left, 0, mid);
            let l1 = Matrix::rows_slice(left, mid, m);
            let ghost gl0 = l0;
            let ghost gl1 = l1;
            let (c0, c1) = spawn_pair(
                (move || -> (r: Matrix)
                    ensures
                        mul_post(l0, *right, r),
                    { dot_rec_spawn(&l0, right, threshold) }),
                (move || -> (r: Matrix)
                    ensures
                        mul_post(l1, *right, r),
                    { dot_rec_spawn(&l1, right, threshold) }),
            );
            let ghost gc0 = c0;
            let ghost gc1 = c1;
            let out = Matrix::stack_rows(c0, c1);
            proof {
                lemma_row_split_product(*left, *right, gl0, gl1, gc0, gc1, out, mid as int);
            }
            out
        },
        SplitChoice::Cols => {
            let mid = n / 2;
            let r0 = Matrix::cols_slice(right, 0, mid);
            let r1 = Matrix::cols_slice(right, mid, n);
            let ghost gr0 = r0;
            let ghost gr1 = r1;
            let (c0, c1) = spawn_pair(
                (move || -> (r: Matrix)
                    ensures
                        mul_post(*left, r0, r),
                    { dot_rec_spawn(left, &r0, threshold) }),
                (move || -> (r: Matrix)
                    ensures
                        mul_post(*left, r1, r),
                    { dot_rec_spawn(left, &r1, threshold) }),
            );
            let ghost gc0 = c0;
            let ghost gc1 = c1;
            let out = Matrix::stack_cols(c0, c1);
            proof {
                lemma_col_split_product(*left, *right, gr0, gr1, gc0, gc1, out, mid as int);
            }
            out
        },
    }
}

/// Parallel matrix multiplication via the fork-join pool: recursively
/// decompose the product into blocks at or below the threshold and overwrite
/// `init` with the result.
pub fn matrix_dot_rayon(left: &Matrix, right: &Matrix, init: &mut Matrix, threshold: usize)
    requires
        left.ok(),
        right.ok(),
        left.cols == right.rows,
        threshold >= 1,
        old(init).wf(),
        old(init).rows == left.rows,
        old(init).cols == right.cols,
    ensures
        final(init).wf(),
        final(init).rows == old(init).rows,
        final(init).cols == old(init).cols,
        is_product(*left, *right, *final(init)),
{
    let r = dot_rec_rayon(left, right, threshold);
    let ghost gr = r;
    init.data = r.data;
    proof {
        assert forall|i: int, j: int|
            0 <= i < init.rows && 0 <= j < init.cols implies init.entry(i, j) == product_entry(
            *left,
            *right,
            i,
            j,
        ) by {
            assert(init.entry(i, j) == gr.entry(i, j));
        }
    }
}

/// Parallel matrix multiplication via an explicit pair of pool tasks per
/// split, with the same decomposition and the same result as the fork-join
/// path.
pub fn matrix_dot_simple_parallel(
    left: &Matrix,
    right: &Matrix,
    init: &mut Matrix,
    threshold: usize,
)
    requires
        left.ok(),
        right.ok(),
        left.cols == right.rows,
        threshold >= 1,
        old(init).wf(),
        old(init).rows == left.rows,
        old(init).cols == right.cols,
    ensures
        final(init).wf(),
        final(init).rows == old(init).rows,
        final(init).cols == old(init).cols,
        is_product(*left, *right, *final(init)),
{
    let r = dot_rec_spawn(left, right, threshold);
    let ghost gr = r;
    init.data = r.data;
    proof {
        assert forall|i: int, j: int|
            0 <= i < init.rows && 0 <= j < init.cols implies init.entry(i, j) == product_entry(
            *left,
            *right,
            i,
            j,
        ) by {
            assert(init.entry(i, j) == gr.entry(i, j));
        }
    }
}

/// The flat kernel behind a shape check: multiply if the shapes agree,
/// report the mismatch and leave `init` untouched if they do not.
pub fn try_matrix_dot_safe(left: &Matrix, right: &Matrix, init: &mut Matrix) -> (res: Result<
    (),
    ShapeMismatch,
>)
    requires
        left.ok(),
        right.ok(),
        old(init).wf(),
    ensures
        res is Ok <==> dims_compatible(*left, *right, *old(init)),
        res is Ok ==> final(init).wf() && final(init).rows == old(init).rows && final(init).cols
            == old(init).cols && is_product(*left, *right, *final(init)),
        res is Err ==> *final(init) == *old(init),
{
    if left.cols == right.rows && init.rows == left.rows && init.cols == right.cols {
        matrix_dot_safe(left, right, init);
        Ok(())
    } else {
        Err(ShapeMismatch)
    }
}

/// The fork-join path behind a shape check: multiply if the shapes agree,
/// report the mismatch and leave `init` untouched if they do not.
pub fn try_matrix_dot_rayon(
    left: &Matrix,
    right: &Matrix,
    init: &mut Matrix,
    threshold: usize,
) -> (res: Result<(), ShapeMismatch>)
    requires
        left.ok(),
        right.ok(),
        threshold >= 1,
        old(init).wf(),
    ensures
        res is Ok <==> dims_compatible(*left, *right, *old(init)),
        res is Ok ==> final(init).wf() && final(init).rows == old(init).rows && final(init).cols
            == old(init).cols && is_product(*left, *right, *final(init)),
        res is Err ==> *final(init) == *old(init),
{
    if left.cols == right.rows && init.rows == left.rows && init.cols == right.cols {
        matrix_dot_rayon(left, right, init, threshold);
        Ok(())
    } else {
        Err(ShapeMismatch)
    }
}

/// The task-pair path behind a shape check: multiply if the shapes agree,
/// report the mismatch and leave `init` untouched if they do not.
pub fn try_matrix_dot_simple_parallel(
    left: &Matrix,
    right: &Matrix,
    init: &mut Matrix,
    threshold: usize,
) -> (res: Result<(), ShapeMismatch>)
    requires
        left.ok(),
        right.ok(),
        threshold >= 1,
        old(init).wf(),
    ensures
        res is Ok <==> dims_compatible(*left, *right, *old(init)),
        res is Ok ==> final(init).wf() && final(init).rows == old(init).rows && final(init).cols
            == old(init).cols && is_product(*left, *right, *final(init)),
        res is Err ==> *final(init) == *old(init),
{
    if left.cols == right.rows && init.rows == left.rows && init.cols == right.cols {
        matrix_dot_simple_parallel(left, right, init, threshold);
        Ok(())
    } else {
        Err(ShapeMismatch)
    }
}

} // verus!
