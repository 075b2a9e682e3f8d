use vstd::prelude::*;

verus! {

/// An order `(p, d, q, s)`: autoregressive terms, degree of differencing,
/// moving-average terms and periodicity.
#[derive(Clone, Copy, Debug, PartialEq, Eq, Structural)]
pub struct Order {
    pub p: usize,
    pub d: usize,
    pub q: usize,
    pub s: usize,
}

/// Why a model could not be built, fit or used to predict.
#[derive(Clone, Copy, Debug, PartialEq, Eq, Structural)]
pub enum ModelError {
    /// A seasonal order was given periodicity one.
    SeasonalPeriodOne,
    /// The series is too short for the configured orders.
    SeriesTooShort,
    /// The exogenous table has `found` rows where `expected` were needed.
    ExogLength { found: usize, expected: usize },
    /// The exogenous table has `found` columns where `expected` were needed.
    ExogColumns { found: usize, expected: usize },
    /// The rows of the exogenous table differ in length.
    RaggedExog,
    /// The model was asked to predict before it was fit.
    NotFit,
    /// The regression matrix stayed singular after the ridge penalty.
    Singular,
}

} // verus!
