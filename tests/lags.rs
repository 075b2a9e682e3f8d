use arima::lags::{create_lags, move_up};

fn transpose(cols: &[Vec<f64>]) -> Vec<Vec<f64>> {
    let n = cols[0].len();
    (0..n).map(|i| cols.iter().map(|c| c[i]).collect()).collect()
}

#[test]
fn lags_zero() {
    let y = vec![0., 1., 2., 3., 4., 5., 6., 7., 8., 9.];
    let y_lags = create_lags(&y, 0, 0);
    let result: Vec<Vec<f64>> = vec![Vec::new(); y.len()];
    assert_eq!(result, y_lags);
}

#[test]
fn lags_one() {
    let y = vec![0., 1., 2., 3., 4., 5., 6., 7., 8., 9.];
    let y_lags = create_lags(&y, 1, 1);
    let result = transpose(&[vec![0., 1., 2., 3., 4., 5., 6., 7., 8.]]);
    assert_eq!(result, y_lags);
}

#[test]
fn lags_two() {
    let y = vec![0., 1., 2., 3., 4., 5., 6., 7., 8., 9.];
    let y_lags = create_lags(&y, 2, 1);
    let result = transpose(&[
        vec![1., 2., 3., 4., 5., 6., 7., 8.],
        vec![0., 1., 2., 3., 4., 5., 6., 7.],
    ]);
    assert_eq!(result, y_lags);
}

#[test]
fn lags_three() {
    let y = vec![0., 1., 2., 3., 4., 5., 6., 7., 8., 9.];
    let y_lags = create_lags(&y, 3, 1);
    let result = transpose(&[
        vec![2., 3., 4., 5., 6., 7., 8.],
        vec![1., 2., 3., 4., 5., 6., 7.],
        vec![0., 1., 2., 3., 4., 5., 6.],
    ]);
    assert_eq!(result, y_lags);
}

#[test]
fn lags_two_seasonal_two() {
    let y = vec![0., 1., 2., 3., 4., 5., 6., 7., 8., 9.];
    let y_lags = create_lags(&y, 2, 2);
    let result = transpose(&[vec![2., 3., 4., 5., 6., 7.], vec![0., 1., 2., 3., 4., 5.]]);
    println!("{:?}", result);
    println!("{:?}", y_lags);
    assert_eq!(result, y_lags);
}

#[test]
fn lags_three_seasonal_three() {
    let y = vec![
        10., 11., 12., 13., 14., 15., 16., 17., 18., 19., 20., 21., 22., 23., 24., 25., 26., 27.,
        28., 29.,
    ];
    let y_lags = create_lags(&y, 3, 3);
    let result = transpose(&[
        vec![16., 17., 18., 19., 20., 21., 22., 23., 24., 25., 26.],
        vec![13., 14., 15., 16., 17., 18., 19., 20., 21., 22., 23.],
        vec![10., 11., 12., 13., 14., 15., 16., 17., 18., 19., 20.],
    ]);
    assert_eq!(result, y_lags);
}

#[test]
fn lags_shape() {
    let y: Vec<i64> = (0..23).collect();
    let y_lags = create_lags(&y, 4, 5);
    assert_eq!(y_lags.len(), 23 - 4 * 5);
    assert!(y_lags.iter().all(|r| r.len() == 4));
    assert_eq!(y_lags[0], vec![15, 10, 5, 0]);
    assert_eq!(y_lags[2], vec![17, 12, 7, 2]);
}

#[test]
fn fit_predict_move_up() {
    let len = 5;
    let errors: Vec<f64> = (0..len).map(|i| 5. + i as f64).collect();
    let n_error_terms = 3;
    let mut x: Vec<Vec<f64>> = vec![vec![0.; n_error_terms]; len];

    move_up(0, &mut x, &errors, 0, n_error_terms, 1);
    move_up(1, &mut x, &errors, 0, n_error_terms, 1);
    move_up(2, &mut x, &errors, 0, n_error_terms, 1);
    move_up(3, &mut x, &errors, 0, n_error_terms, 1);

    let result = transpose(&[
        // no value precedes the first error, so its lag stays zero
        vec![0., 5., 6., 7., 0.],
        vec![0., 0., 5., 6., 0.],
        vec![0., 0., 0., 5., 0.],
    ]);

    assert_eq!(result, x);
}

#[test]
fn fit_predict_move_up_seasonal() {
    let len = 15;
    let errors: Vec<f64> = (0..len).map(|i| 5. + i as f64).collect();
    let n_error_terms = 3;
    let mut x: Vec<Vec<f64>> = vec![vec![0.; n_error_terms]; len];

    for i in 0..15 {
        move_up(i, &mut x, &errors, 0, 1, 1);
        move_up(i, &mut x, &errors, 1, 3, 7);
    }

    let result: Vec<Vec<f64>> = vec![
        vec![0.0, 0.0, 0.0],
        vec![5.0, 0.0, 0.0],
        vec![6.0, 0.0, 0.0],
        vec![7.0, 0.0, 0.0],
        vec![8.0, 0.0, 0.0],
        vec![9.0, 0.0, 0.0],
        vec![10.0, 0.0, 0.0],
        vec![11.0, 5.0, 0.0],
        vec![12.0, 6.0, 0.0],
        vec![13.0, 7.0, 0.0],
        vec![14.0, 8.0, 0.0],
        vec![15.0, 9.0, 0.0],
        vec![16.0, 10.0, 0.0],
        vec![17.0, 11.0, 0.0],
        vec![18.0, 12.0, 5.0],
    ];

    assert_eq!(result, x);
}

#[test]
fn move_up_leaves_other_cells() {
    let values: Vec<i64> = vec![1, 2, 3, 4];
    let mut x: Vec<Vec<i64>> = vec![vec![-1; 4]; 4];
    move_up(3, &mut x, &values, 1, 3, 2);
    assert_eq!(x[3], vec![-1, 2, -1, -1]);
    assert_eq!(x[0], vec![-1; 4]);
}
