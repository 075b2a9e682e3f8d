use arima::scalar::{Matrix, Scalar};
use arima::transform::{diff1d, diff_all1d, integrate, integrate_all};

/// A float under the library's arithmetic, inverted by Gauss-Jordan elimination.
#[derive(Clone, Copy, Debug, PartialEq)]
struct F(f64);

impl Scalar for F {
    fn spec_zero() -> Self {
        F(0.0)
    }
    fn spec_one() -> Self {
        F(1.0)
    }
    fn spec_plus(self, other: Self) -> Self {
        F(self.0 + other.0)
    }
    fn spec_minus(self, other: Self) -> Self {
        F(self.0 - other.0)
    }
    fn spec_times(self, other: Self) -> Self {
        F(self.0 * other.0)
    }
    // stands for the inverse in contracts only; nothing runs it
    fn spec_inverse(_m: Matrix<Self>) -> Option<Matrix<Self>> {
        unreachable!()
    }
    fn zero() -> Self {
        F(0.0)
    }
    fn one() -> Self {
        F(1.0)
    }
    fn plus(self, other: Self) -> Self {
        F(self.0 + other.0)
    }
    fn minus(self, other: Self) -> Self {
        F(self.0 - other.0)
    }
    fn times(self, other: Self) -> Self {
        F(self.0 * other.0)
    }
    fn inverse(m: &Vec<Vec<Self>>) -> Option<Vec<Vec<Self>>> {
        let n = m.len();
        let mut a: Vec<Vec<f64>> = m
            .iter()
            .enumerate()
            .map(|(i, row)| {
                let mut r: Vec<f64> = row.iter().map(|v| v.0).collect();
                r.extend((0..n).map(|j| if i == j { 1.0 } else { 0.0 }));
                r
            })
            .collect();
        for c in 0..n {
            let pivot = (c..n).max_by(|&i, &j| a[i][c].abs().partial_cmp(&a[j][c].abs()).unwrap())?;
            if a[pivot][c] == 0.0 {
                return None;
            }
            a.swap(c, pivot);
            let p = a[c][c];
            for v in a[c].iter_mut() {
                *v /= p;
            }
            for r in 0..n {
                if r != c {
                    let f = a[r][c];
                    if f != 0.0 {
                        for k in 0..2 * n {
                            a[r][k] -= f * a[c][k];
                        }
                    }
                }
            }
        }
        Some(a.into_iter().map(|r| r[n..].iter().map(|&v| F(v)).collect()).collect())
    }
}

fn f(v: &[i64]) -> Vec<F> {
    v.iter().map(|&x| F(x as f64)).collect()
}


fn add(a: &[i64], b: &[i64]) -> Vec<i64> {
    a.iter().zip(b.iter()).map(|(x, y)| x + y).collect()
}

#[test]
fn difference_difference_zero() {
    let y: Vec<i64> = vec![1, 2, 3, 4, 5];
    assert_eq!(diff1d(&f(&y), 0, 0), f(&y))
}

#[test]
fn difference_difference_one() {
    let y: Vec<i64> = vec![1, 2, 3, 4, 5];
    let result: Vec<i64> = vec![1, 1, 1, 1];
    assert_eq!(diff1d(&f(&y), 1, 1), f(&result))
}

#[test]
fn difference_difference_two() {
    let y: Vec<i64> = vec![1, 2, 4, 7, 11, 16, 22];
    let result: Vec<i64> = vec![1, 1, 1, 1, 1];
    assert_eq!(diff1d(&f(&y), 2, 1), f(&result))
}

#[test]
fn difference_difference_three() {
    let y: Vec<i64> = vec![1, 2, 4, 8, 15, 26, 42];
    let result: Vec<i64> = vec![1, 1, 1, 1];
    assert_eq!(diff1d(&f(&y), 3, 1), f(&result))
}

#[test]
fn difference_seasonal_one_degrees() {
    let (d, s_d, s) = (0, 1, 7);
    let y: Vec<i64> = vec![
        7, 6, 4, 3, 4, 5, 6, 7, 6, 4, 3, 4, 5, 6, 7, 6, 4, 3, 4, 5, 6, 7, 6, 4, 3, 4, 5, 6,
    ];
    let y_diff = diff_all1d(&f(&y), d, s_d, s);
    let result: Vec<i64> = vec![0; y.len() - s];
    assert_eq!(f(&result), y_diff);
}

#[test]
fn difference_difference_seasonal_three() {
    let y: Vec<i64> = vec![1, 1, 1, 2, 2, 2, 3, 3, 3, 4, 4, 4];
    let result: Vec<i64> = vec![1, 1, 1, 1, 1, 1, 1, 1, 1];
    assert_eq!(diff1d(&f(&y), 1, 3), f(&result))
}

#[test]
fn difference_difference_one_seasonal_three() {
    let y1: Vec<i64> = vec![1, 2, 3, 4, 5, 6, 7, 8, 9, 10, 11, 12];
    let y2: Vec<i64> = vec![1, 1, 1, 2, 2, 2, 3, 3, 3, 4, 4, 4];
    let y = add(&y1, &y2);

    let y_diff1 = diff1d(&f(&y), 1, 1);
    let y_diff2 = diff1d(&y_diff1, 1, 3);

    let result: Vec<i64> = vec![0, 0, 0, 0, 0, 0, 0, 0];
    assert_eq!(y_diff2, f(&result))
}

fn round_trip(y: &[i64], cutoff: usize, d: usize, s_d: usize, s: usize) -> (Vec<F>, Vec<F>) {
    let y = f(y);
    let from_end = y.len() - cutoff;
    let y_train = y[..cutoff].to_vec();
    let y_future = y[cutoff..].to_vec();
    let diffed = diff_all1d(&y, d, s_d, s);
    let y_preds = diffed[diffed.len() - from_end..].to_vec();
    let y_preds = integrate_all(&y_preds, &y_train, d, s_d, s);
    (y_future, y_preds)
}

#[test]
fn difference_integrate_one_degree() {
    let (d, s_d, s) = (1, 0, 0);
    let y: Vec<i64> = (0..50).map(|i| 2 * i).collect();
    let (y_future, y_preds) = round_trip(&y, 14, d, s_d, s);
    assert_eq!(y_future, y_preds);
}

#[test]
fn difference_integrate_two_degrees() {
    let (d, s_d, s) = (2, 0, 0);
    let y: Vec<i64> = vec![
        1, 2, 4, 7, 11, 16, 22, 29, 37, 46, 56, 67, 79, 92, 106, 121, 137, 154, 172,
    ];
    let (y_future, y_preds) = round_trip(&y, 14, d, s_d, s);
    assert_eq!(y_future, y_preds);
}

#[test]
fn difference_integrate_two_one_degrees() {
    let (d, s_d, s) = (2, 1, 2);
    let y1: Vec<i64> = vec![
        1, 2, 4, 7, 11, 16, 22, 29, 37, 46, 56, 67, 79, 92, 106, 121, 137, 154, 172,
    ];
    let y2: Vec<i64> = vec![1, 4, 1, 4, 1, 4, 1, 4, 1, 4, 1, 4, 1, 4, 1, 4, 1, 4, 1];
    let y = add(&y1, &y2);
    let (y_future, y_preds) = round_trip(&y, 14, d, s_d, s);
    assert_eq!(y_future, y_preds);
}

#[test]
fn difference_integrate_seasonal_one_degrees() {
    let (d, s_d, s) = (0, 1, 7);
    let y: Vec<i64> = vec![
        7, 6, 4, 3, 4, 5, 6, 7, 6, 4, 3, 4, 5, 6, 7, 6, 4, 3, 4, 5, 6, 7, 6, 4, 3, 4, 5, 6,
    ];
    let (y_future, y_preds) = round_trip(&y, 14, d, s_d, s);
    assert_eq!(y_future, y_preds);
}

#[test]
fn round_trip_mixed_levels() {
    let y: Vec<i64> = (0..40).map(|i: i64| i * i * 3 - 7 * i + (i % 5) * 11 - 400).collect();
    for (d, s_d, s) in [(0, 0, 0), (1, 2, 3), (3, 0, 0), (0, 3, 4), (2, 2, 5)] {
        let (y_future, y_preds) = round_trip(&y, 30, d, s_d, s);
        assert_eq!(y_future, y_preds);
    }
}

#[test]
fn integrate_one_pass() {
    let y_last: Vec<i64> = vec![10, 20, 30];
    let r = integrate(&f(&[1, 2, 3, 4]), &f(&y_last), 2);
    assert_eq!(r, f(&[21, 32, 24, 36]));
}

