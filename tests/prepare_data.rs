use arima::model::Model;
use arima::order::ModelError;
use arima::scalar::{Matrix, Scalar};

/// A float under the library's arithmetic, inverted by Gauss-Jordan elimination.
#[derive(Clone, Copy, Debug, PartialEq)]
struct F(f64);

impl Scalar for F {
    fn spec_zero() -> Self {
        F(0.0)
    }
    fn spec_one() -> Self {
        F(1.0)
    }
    fn spec_plus(self, other: Self) -> Self {
        F(self.0 + other.0)
    }
    fn spec_minus(self, other: Self) -> Self {
        F(self.0 - other.0)
    }
    fn spec_times(self, other: Self) -> Self {
        F(self.0 * other.0)
    }
    // stands for the inverse in contracts only; nothing runs it
    fn spec_inverse(_m: Matrix<Self>) -> Option<Matrix<Self>> {
        unreachable!()
    }
    fn zero() -> Self {
        F(0.0)
    }
    fn one() -> Self {
        F(1.0)
    }
    fn plus(self, other: Self) -> Self {
        F(self.0 + other.0)
    }
    fn minus(self, other: Self) -> Self {
        F(self.0 - other.0)
    }
    fn times(self, other: Self) -> Self {
        F(self.0 * other.0)
    }
    fn inverse(m: &Vec<Vec<Self>>) -> Option<Vec<Vec<Self>>> {
        let n = m.len();
        let mut a: Vec<Vec<f64>> = m
            .iter()
            .enumerate()
            .map(|(i, row)| {
                let mut r: Vec<f64> = row.iter().map(|v| v.0).collect();
                r.extend((0..n).map(|j| if i == j { 1.0 } else { 0.0 }));
                r
            })
            .collect();
        for c in 0..n {
            let pivot = (c..n).max_by(|&i, &j| a[i][c].abs().partial_cmp(&a[j][c].abs()).unwrap())?;
            if a[pivot][c] == 0.0 {
                return None;
            }
            a.swap(c, pivot);
            let p = a[c][c];
            for v in a[c].iter_mut() {
                *v /= p;
            }
            for r in 0..n {
                if r != c {
                    let f = a[r][c];
                    if f != 0.0 {
                        for k in 0..2 * n {
                            a[r][k] -= f * a[c][k];
                        }
                    }
                }
            }
        }
        Some(a.into_iter().map(|r| r[n..].iter().map(|&v| F(v)).collect()).collect())
    }
}



fn w(v: &[f64]) -> Vec<F> {
    v.iter().map(|&x| F(x)).collect()
}

fn wr(rows: &[Vec<f64>]) -> Vec<Vec<F>> {
    rows.iter().map(|r| w(r)).collect()
}

#[test]
#[should_panic]
fn prepare_data_y_too_small() {
    let model: Model<F> = Model::sarima((2, 1, 3), (1, 1, 1, 7)).unwrap();
    let y = w(&[0., 1., 2., 3.]);
    let x: Vec<Vec<F>> = vec![Vec::new(); y.len()];
    model.prepare_xy(&x, &y, F(0.), F(1.)).unwrap();
}

#[test]
#[should_panic]
fn prepare_data_x_future_wrong_cols() {
    let h = 10;
    let y = w(&[1.; 200]);
    let x = wr(&vec![vec![1.; 10]; 200]);
    let x_future = wr(&vec![vec![1.; 8]; h]);

    let mut model: Model<F> = Model::moving_average(0);
    model.forecast(&y, h, Some(&x), Some(&x_future)).unwrap();
}

#[test]
#[should_panic]
fn prepare_data_y_len_not_equal_x_len() {
    let model: Model<F> = Model::sarima((1, 1, 0), (2, 2, 0, 2)).unwrap();
    let y = w(&[0., 1., 2., 3., 4., 5., 6., 7., 8., 9.]);
    let x: Vec<Vec<F>> = (0..5).map(|i| vec![F(i as f64), F(i as f64)]).collect();
    model.unwrap_x(Some(&x), y.len()).unwrap();
}

#[test]
fn fit_errors() {
    let mut model: Model<F> = Model::sarima((1, 1, 0), (2, 2, 0, 2)).unwrap();
    let y: Vec<F> = (0..10).map(|i| F(i as f64)).collect();
    let x: Vec<Vec<F>> = (0..5).map(|i| vec![F(i as f64), F(i as f64)]).collect();
    assert_eq!(
        model.fit(&y, Some(&x)),
        Err(ModelError::ExogLength { found: 5, expected: 10 })
    );
    assert!(!model.is_fit());

    let mut ragged = wr(&vec![vec![0.; 2]; 10]);
    ragged[4] = w(&[0.; 3]);
    assert_eq!(model.fit(&y, Some(&ragged)), Err(ModelError::RaggedExog));
    assert_eq!(model.fit(&y, None), Err(ModelError::SeriesTooShort));
    assert!(!model.is_fit());
}

#[test]
fn fit_minimum_length() {
    // differencing uses 1 + 2 * 2 values, the lags 4, and 1 + 1 + 2 columns remain
    let mut model: Model<F> = Model::sarima((1, 1, 0), (2, 2, 0, 2)).unwrap();
    let short: Vec<F> = (0..12).map(|i| F((i * i % 7) as f64)).collect();
    assert_eq!(model.fit(&short, None), Err(ModelError::SeriesTooShort));
    let enough: Vec<F> = (0..13).map(|i| F((i * i % 7) as f64)).collect();
    assert_eq!(model.fit(&enough, None), Ok(()));
    assert!(model.is_fit());
    assert_eq!(model.n_exog(), 0);
    assert_eq!(model.endog_fit(), Some(&enough));
    assert_eq!(model.exog_fit().map(|t| t.len()), Some(13));
    assert_eq!(model.coefs().map(|c| c.len()), Some(4));
}

#[test]
fn predict_checks() {
    let model: Model<F> = Model::arima(1, 0, 1);
    // an unfit model checks the row count and the rows only
    assert_eq!(model.unwrap_x(None, 3), Ok(vec![Vec::new(); 3]));
    let two_cols = wr(&vec![vec![1., 2.]; 3]);
    assert_eq!(model.unwrap_x(Some(&two_cols), 3), Ok(two_cols.clone()));
    let mut unfit: Model<F> = Model::arima(1, 0, 1);
    assert_eq!(unfit.predict(3, None), Err(ModelError::NotFit));

    let mut model: Model<F> = Model::moving_average(0);
    let y: Vec<F> = (0..20).map(|i| F((i % 3) as f64)).collect();
    let x: Vec<Vec<F>> = (0..20).map(|i| vec![F(i as f64), F((i * i) as f64)]).collect();
    model.fit(&y, Some(&x)).unwrap();
    assert_eq!(model.n_exog(), 2);
    assert_eq!(model.unwrap_x(None, 3), Err(ModelError::ExogColumns { found: 0, expected: 2 }));
    let short = wr(&vec![vec![1., 2.]; 2]);
    assert_eq!(
        model.unwrap_x(Some(&short), 3),
        Err(ModelError::ExogLength { found: 2, expected: 3 })
    );
    let mut ragged = wr(&vec![vec![1., 2.]; 3]);
    ragged[2] = w(&[1.]);
    assert_eq!(model.unwrap_x(Some(&ragged), 3), Err(ModelError::RaggedExog));
    let good = wr(&vec![vec![3., 4.]; 3]);
    assert_eq!(model.unwrap_x(Some(&good), 3), Ok(good.clone()));
}

#[test]
fn design_matrix() {
    let model: Model<i64> = Model::sarima((2, 0, 1), (1, 0, 1, 3)).unwrap();
    let endog: Vec<i64> = vec![10, 11, 12, 13, 14, 15];
    let exog: Vec<Vec<i64>> = (0..6).map(|i| vec![100 + i]).collect();
    let (x, y) = model.prepare_xy(&exog, &endog, 0, 1).unwrap();
    assert_eq!(y, vec![13, 14, 15]);
    assert_eq!(
        x,
        vec![
            vec![1, 0, 0, 12, 11, 10, 103],
            vec![1, 0, 0, 13, 12, 11, 104],
            vec![1, 0, 0, 14, 13, 12, 105],
        ]
    );
    let short: Vec<i64> = vec![1, 2, 3];
    let no_exog: Vec<Vec<i64>> = vec![Vec::new(); 3];
    assert_eq!(model.prepare_xy(&no_exog, &short, 0, 1), Err(ModelError::SeriesTooShort));
}
