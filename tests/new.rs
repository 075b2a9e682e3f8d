use arima::model::Model;
use arima::order::{ModelError, Order};

#[test]
#[should_panic]
fn test_seasonal_s_equal_one() {
    let _model: Model<f64> = Model::sarima((1, 2, 3), (4, 5, 6, 1)).unwrap();
}

#[test]
fn test_sarima_new() {
    let model: Model<f64> = Model::sarima((1, 2, 3), (4, 5, 6, 7)).unwrap();
    assert_eq!(model.order(), Order { p: 1, d: 2, q: 3, s: 1 });
    assert_eq!(model.seasonal_order(), Order { p: 4, d: 5, q: 6, s: 7 });
}

#[test]
fn test_arima_new() {
    let model: Model<f64> = Model::arima(1, 2, 3);
    assert_eq!(model.order(), Order { p: 1, d: 2, q: 3, s: 1 });
    assert_eq!(model.seasonal_order(), Order { p: 0, d: 0, q: 0, s: 0 });
}

#[test]
fn test_arma_new() {
    let model: Model<f64> = Model::arma(1, 3);
    assert_eq!(model.order(), Order { p: 1, d: 0, q: 3, s: 1 });
    assert_eq!(model.seasonal_order(), Order { p: 0, d: 0, q: 0, s: 0 });
}

#[test]
fn test_ar_new() {
    let model: Model<f64> = Model::autoregressive(1);
    assert_eq!(model.order(), Order { p: 1, d: 0, q: 0, s: 1 });
    assert_eq!(model.seasonal_order(), Order { p: 0, d: 0, q: 0, s: 0 });
}

#[test]
fn test_ma_new() {
    let model: Model<f64> = Model::moving_average(3);
    assert_eq!(model.order(), Order { p: 0, d: 0, q: 3, s: 1 });
    assert_eq!(model.seasonal_order(), Order { p: 0, d: 0, q: 0, s: 0 });
}

#[test]
#[should_panic]
fn new_seasonal_s_equal_one() {
    let _model: Model<f64> = Model::sarima((1, 2, 3), (4, 5, 6, 1)).unwrap();
}

#[test]
fn new_sarima() {
    let model: Model<f64> = Model::sarima((1, 2, 3), (4, 5, 6, 7)).unwrap();
    assert_eq!(model.order(), Order { p: 1, d: 2, q: 3, s: 1 });
    assert_eq!(model.seasonal_order(), Order { p: 4, d: 5, q: 6, s: 7 });
}

#[test]
fn new_arima() {
    let model: Model<f64> = Model::arima(1, 2, 3);
    assert_eq!(model.order(), Order { p: 1, d: 2, q: 3, s: 1 });
    assert_eq!(model.seasonal_order(), Order { p: 0, d: 0, q: 0, s: 0 });
}

#[test]
fn new_arma() {
    let model: Model<f64> = Model::arma(1, 3);
    assert_eq!(model.order(), Order { p: 1, d: 0, q: 3, s: 1 });
    assert_eq!(model.seasonal_order(), Order { p: 0, d: 0, q: 0, s: 0 });
}

#[test]
fn new_ar() {
    let model: Model<f64> = Model::autoregressive(1);
    assert_eq!(model.order(), Order { p: 1, d: 0, q: 0, s: 1 });
    assert_eq!(model.seasonal_order(), Order { p: 0, d: 0, q: 0, s: 0 });
}

#[test]
fn new_ma() {
    let model: Model<f64> = Model::moving_average(3);
    assert_eq!(model.order(), Order { p: 0, d: 0, q: 3, s: 1 });
    assert_eq!(model.seasonal_order(), Order { p: 0, d: 0, q: 0, s: 0 });
}

#[test]
fn seasonal_period_one_is_an_error() {
    let r: Result<Model<f64>, ModelError> = Model::sarima((0, 0, 0), (0, 0, 0, 1));
    assert_eq!(r.err(), Some(ModelError::SeasonalPeriodOne));
    let ok: Result<Model<f64>, ModelError> = Model::sarima((0, 0, 0), (0, 0, 0, 2));
    assert!(ok.is_ok());
}

#[test]
fn error_model_only_with_moving_average_terms() {
    let model: Model<f64> = Model::sarima((2, 1, 3), (1, 1, 2, 7)).unwrap();
    let sub = model.error_model().unwrap();
    assert_eq!(sub.order(), Order { p: 2, d: 0, q: 0, s: 1 });
    assert_eq!(sub.seasonal_order(), Order { p: 1, d: 0, q: 0, s: 7 });
    assert!(!sub.is_fit());
    assert!(sub.error_model().is_none());

    let ar: Model<f64> = Model::autoregressive(2);
    assert!(ar.error_model().is_none());
    let seasonal_ma: Model<f64> = Model::sarima((0, 0, 0), (0, 0, 1, 4)).unwrap();
    assert!(seasonal_ma.error_model().is_some());
}

#[test]
fn column_layout() {
    let model: Model<f64> = Model::sarima((2, 1, 3), (1, 1, 2, 7)).unwrap();
    assert_eq!(model.error_cols(), (1, 4, 6));
    assert_eq!(model.lag_cols(), (6, 8, 9));
    assert_eq!(model.n_columns(4), 13);
    assert_eq!(model.nobs_lost(), Some(7));
    let ar: Model<f64> = Model::autoregressive(3);
    assert_eq!(ar.nobs_lost(), Some(3));
    assert_eq!(ar.n_columns(0), 4);
}
