use matrix_dot::dot::choose_axis;
use matrix_dot::dot::matrix_dot_rayon;
use matrix_dot::dot::matrix_dot_safe;
use matrix_dot::dot::matrix_dot_simple_parallel;
use matrix_dot::dot::try_matrix_dot_rayon;
use matrix_dot::dot::try_matrix_dot_safe;
use matrix_dot::dot::try_matrix_dot_simple_parallel;
use matrix_dot::dot::SplitChoice;
use matrix_dot::dot::BLOCKSIZE;
use matrix_dot::matrix::Matrix;
use matrix_dot::matrix::ENTRY_MAX;

use rand::RngExt;

fn mat(rows: usize, cols: usize, data: Vec<i64>) -> Matrix {
    assert_eq!(data.len(), rows * cols);
    Matrix { rows, cols, data }
}

fn zero_mat(rows: usize, cols: usize) -> Matrix {
    mat(rows, cols, vec![0; rows * cols])
}

fn random_mat(rows: usize, cols: usize) -> Matrix {
    let mut r = rand::rng();
    let data: Vec<i64> = (0..rows * cols).map(|_| r.random_range(-9..=9)).collect();
    mat(rows, cols, data)
}

/// Reference product, written out naively and independently of the library.
fn reference_product(a: &Matrix, b: &Matrix) -> Matrix {
    assert_eq!(a.cols, b.rows);
    let mut data = vec![0i64; a.rows * b.cols];
    for i in 0..a.rows {
        for j in 0..b.cols {
            let mut s = 0i64;
            for x in 0..a.cols {
                s += a.data[i * a.cols + x] * b.data[x * b.cols + j];
            }
            data[i * b.cols + j] = s;
        }
    }
    mat(a.rows, b.cols, data)
}

fn assert_same(c: &Matrix, d: &Matrix) {
    assert_eq!(c.rows, d.rows);
    assert_eq!(c.cols, d.cols);
    assert_eq!(c.data, d.data);
}

const P5_EXPECTED: [i64; 4] = [58, 64, 139, 154];

fn p5_left() -> Matrix {
    mat(2, 3, vec![1, 2, 3, 4, 5, 6])
}

fn p5_right() -> Matrix {
    mat(3, 2, vec![7, 8, 9, 10, 11, 12])
}

#[test]
fn scenario_two_by_three_safe() {
    let mut out = zero_mat(2, 2);
    matrix_dot_safe(&p5_left(), &p5_right(), &mut out);
    assert_eq!(out.data, P5_EXPECTED.to_vec());
}

#[test]
fn scenario_two_by_three_rayon() {
    for threshold in [1, 2, 100] {
        let mut out = zero_mat(2, 2);
        matrix_dot_rayon(&p5_left(), &p5_right(), &mut out, threshold);
        assert_eq!(out.data, P5_EXPECTED.to_vec());
    }
}

#[test]
fn scenario_two_by_three_simple_parallel() {
    for threshold in [1, 2, 100] {
        let mut out = zero_mat(2, 2);
        matrix_dot_simple_parallel(&p5_left(), &p5_right(), &mut out, threshold);
        assert_eq!(out.data, P5_EXPECTED.to_vec());
    }
}

#[test]
fn equivalence_across_paths() {
    for (m, k, n) in [(3, 4, 5), (10, 7, 3), (33, 20, 17), (1, 1, 1), (8, 8, 8)] {
        let a = random_mat(m, k);
        let b = random_mat(k, n);
        let expected = reference_product(&a, &b);

        let mut safe = zero_mat(m, n);
        matrix_dot_safe(&a, &b, &mut safe);
        assert_same(&safe, &expected);

        for threshold in [1, 2, 5, 16, 100] {
            let mut ray = zero_mat(m, n);
            matrix_dot_rayon(&a, &b, &mut ray, threshold);
            assert_same(&ray, &expected);

            let mut tasks = zero_mat(m, n);
            matrix_dot_simple_parallel(&a, &b, &mut tasks, threshold);
            assert_same(&tasks, &expected);
        }
    }
}

#[test]
fn threshold_never_changes_result() {
    let a = random_mat(12, 9);
    let b = random_mat(9, 11);
    let expected = reference_product(&a, &b);
    for threshold in [1, 3, 8, 50, 1000] {
        let mut ray = zero_mat(12, 11);
        matrix_dot_rayon(&a, &b, &mut ray, threshold);
        assert_same(&ray, &expected);

        let mut tasks = zero_mat(12, 11);
        matrix_dot_simple_parallel(&a, &b, &mut tasks, threshold);
        assert_same(&tasks, &expected);
    }
}

#[test]
fn thread_count_never_changes_result() {
    let a = random_mat(40, 30);
    let b = random_mat(30, 20);
    let expected = reference_product(&a, &b);
    for threads in [1, 2, 8] {
        let pool = rayon::ThreadPoolBuilder::new().num_threads(threads).build().unwrap();
        let ray = pool.install(|| {
            let mut out = zero_mat(40, 20);
            matrix_dot_rayon(&a, &b, &mut out, 8);
            out
        });
        assert_same(&ray, &expected);

        let tasks = pool.install(|| {
            let mut out = zero_mat(40, 20);
            matrix_dot_simple_parallel(&a, &b, &mut out, 8);
            out
        });
        assert_same(&tasks, &expected);
    }
}

#[test]
fn mismatched_inner_dimension_fails() {
    let a = random_mat(3, 4);
    let b = random_mat(5, 2);
    let mut out = zero_mat(3, 2);
    let before = out.data.clone();
    assert!(try_matrix_dot_safe(&a, &b, &mut out).is_err());
    assert!(try_matrix_dot_rayon(&a, &b, &mut out, 2).is_err());
    assert!(try_matrix_dot_simple_parallel(&a, &b, &mut out, 2).is_err());
    assert_eq!(out.data, before);
}

#[test]
fn mismatched_output_shape_fails() {
    let a = random_mat(3, 4);
    let b = random_mat(4, 2);
    for (rows, cols) in [(3, 3), (2, 2), (4, 2), (0, 0)] {
        let mut out = zero_mat(rows, cols);
        let before = out.data.clone();
        assert!(try_matrix_dot_safe(&a, &b, &mut out).is_err());
        assert!(try_matrix_dot_rayon(&a, &b, &mut out, 2).is_err());
        assert!(try_matrix_dot_simple_parallel(&a, &b, &mut out, 2).is_err());
        assert_eq!(out.data, before);
    }
}

#[test]
fn matching_shapes_succeed() {
    let a = random_mat(3, 4);
    let b = random_mat(4, 2);
    let expected = reference_product(&a, &b);
    let mut out = zero_mat(3, 2);
    assert!(try_matrix_dot_safe(&a, &b, &mut out).is_ok());
    assert_same(&out, &expected);
    let mut out = zero_mat(3, 2);
    assert!(try_matrix_dot_rayon(&a, &b, &mut out, 2).is_ok());
    assert_same(&out, &expected);
    let mut out = zero_mat(3, 2);
    assert!(try_matrix_dot_simple_parallel(&a, &b, &mut out, 2).is_ok());
    assert_same(&out, &expected);
}

#[test]
fn large_rectangular_splits_rows_first() {
    // 250 rows exceed the threshold of 100, so the decomposer must split the
    // row axis, and again at 125, before the column axis is considered.
    assert!(matches!(choose_axis(250, 130, 100), SplitChoice::Rows));
    assert!(matches!(choose_axis(125, 130, 100), SplitChoice::Rows));
    assert!(matches!(choose_axis(63, 130, 100), SplitChoice::Cols));
    assert!(matches!(choose_axis(63, 65, 100), SplitChoice::Flat));
    assert!(matches!(choose_axis(100, 100, 100), SplitChoice::Flat));

    let a = random_mat(250, 250);
    let b = random_mat(250, 130);
    let mut seq = zero_mat(250, 130);
    matrix_dot_safe(&a, &b, &mut seq);
    let mut ray = zero_mat(250, 130);
    matrix_dot_rayon(&a, &b, &mut ray, 100);
    assert_same(&ray, &seq);
    let mut tasks = zero_mat(250, 130);
    matrix_dot_simple_parallel(&a, &b, &mut tasks, 100);
    assert_same(&tasks, &seq);
}

#[test]
fn blocksize_is_a_valid_threshold() {
    let a = random_mat(150, 40);
    let b = random_mat(40, 120);
    let expected = reference_product(&a, &b);
    let mut out = zero_mat(150, 120);
    matrix_dot_rayon(&a, &b, &mut out, BLOCKSIZE);
    assert_same(&out, &expected);
}

#[test]
fn empty_inner_dimension_gives_zeros() {
    let a = mat(3, 0, vec![]);
    let b = mat(0, 4, vec![]);
    let mut out = mat(3, 4, vec![7; 12]);
    matrix_dot_rayon(&a, &b, &mut out, 1);
    assert_eq!(out.data, vec![0; 12]);
}

#[test]
fn empty_outer_dimension_gives_empty() {
    let a = mat(0, 3, vec![]);
    let b = random_mat(3, 2);
    let mut out = mat(0, 2, vec![]);
    matrix_dot_simple_parallel(&a, &b, &mut out, 1);
    assert_eq!(out.data, Vec::<i64>::new());
}

#[test]
fn extreme_entries_multiply_exactly() {
    let e = ENTRY_MAX;
    let a = mat(2, 2, vec![e, -e, e, e]);
    let b = mat(2, 2, vec![e, e, e, -e]);
    let expected = vec![0, 2 * e * e, 2 * e * e, 0];
    for threshold in [1, 2] {
        let mut out = zero_mat(2, 2);
        matrix_dot_rayon(&a, &b, &mut out, threshold);
        assert_eq!(out.data, expected);
        let mut out = zero_mat(2, 2);
        matrix_dot_simple_parallel(&a, &b, &mut out, threshold);
        assert_eq!(out.data, expected);
    }
    let mut out = zero_mat(2, 2);
    matrix_dot_safe(&a, &b, &mut out);
    assert_eq!(out.data, expected);
}

#[test]
fn get_reads_row_major_entries() {
    let a = mat(2, 3, vec![1, 2, 3, 4, 5, 6]);
    assert_eq!(a.get(0, 0), 1);
    assert_eq!(a.get(0, 2), 3);
    assert_eq!(a.get(1, 0), 4);
    assert_eq!(a.get(1, 2), 6);
}

#[test]
fn slices_and_stacks_recompose() {
    let a = mat(4, 3, (1..=12).collect());
    let top = Matrix::rows_slice(&a, 0, 2);
    let bot = Matrix::rows_slice(&a, 2, 4);
    assert_eq!(top.data, vec![1, 2, 3, 4, 5, 6]);
    assert_eq!(bot.data, vec![7, 8, 9, 10, 11, 12]);
    let back = Matrix::stack_rows(top, bot);
    assert_eq!(back.data, a.data);

    let first = Matrix::cols_slice(&a, 0, 1);
    let rest = Matrix::cols_slice(&a, 1, 3);
    assert_eq!(first.data, vec![1, 4, 7, 10]);
    assert_eq!(rest.data, vec![2, 3, 5, 6, 8, 9, 11, 12]);
    let back = Matrix::stack_cols(first, rest);
    assert_eq!(back.data, a.data);
}

#[test]
fn zeros_builds_the_zero_matrix() {
    let z = Matrix::zeros(3, 5);
    assert_eq!(z.rows, 3);
    assert_eq!(z.cols, 5);
    assert_eq!(z.data, vec![0; 15]);
}
