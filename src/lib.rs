//! Seasonal ARIMA forecasting: autoregressive, moving-average, integrated and
//! seasonal terms, with exogenous regressors.
//!
//! - `model`: the orders of a model, its fitted state and the design matrix.
//! - `forecast`: the recursive estimator, the error model and the forecaster.
//! - `solve`: least squares by the normal equations.
//! - `transform`: differencing and its inverse, and their exact round trip.
//! - `lags`: lag tables and the filling of lag columns.
//! - `scalar`: the arithmetic a model computes with.

pub mod forecast;
pub mod lags;
pub mod model;
pub mod order;
pub mod scalar;
pub mod solve;
pub mod transform;
