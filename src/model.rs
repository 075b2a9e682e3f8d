use vstd::prelude::*;
use crate::lags::{
    copy_series, copy_table, create_lags, empty_rows, has_width, is_table, lag_entry, push_all, push_n,
};
use crate::order::{ModelError, Order};

verus! {

/// A seasonal ARIMA model with exogenous regressors, over values of type `T`.
///
/// It holds its non-seasonal order (periodicity one), its seasonal order
/// (periodicity never one) and, once fit, what fitting left.
#[derive(Debug)]
pub struct Model<T> {
    order: Order,
    seasonal_order: Order,
    fitted: Option<Fitted<T>>,
}

/// What fitting leaves: the series, the exogenous table with one row per value,
/// its number of columns, the coefficients, the residuals of the rows that were
/// fit, and the fitted error model where there are moving-average terms.
#[derive(Debug)]
pub struct Fitted<T> {
    pub endog: Vec<T>,
    pub exog: Vec<Vec<T>>,
    pub n_exog: usize,
    pub coefs: Vec<T>,
    pub residuals: Vec<T>,
    pub error_fit: Option<Box<Model<T>>>,
}

/// One for orders with moving-average terms, whose errors another model
/// forecasts; zero for orders without.
pub open spec fn ma_rank(o: Order, so: Order) -> int {
    if o.q + so.q > 0 {
        1
    } else {
        0
    }
}

/// The largest of two integers.
pub open spec fn max_int(a: int, b: int) -> int {
    if a >= b {
        a
    } else {
        b
    }
}

/// Columns of the design matrix for the orders `o` and `so`: intercept,
/// error lags, seasonal error lags, lags, seasonal lags, exogenous columns.
pub open spec fn n_columns(o: Order, so: Order, n_exog: int) -> int {
    1 + o.q + so.q + o.p + so.p + n_exog
}

/// Values that the lags use up at the start of the differenced series.
pub open spec fn nobs_lost(o: Order, so: Order) -> int {
    max_int(o.p as int, so.p * so.s)
}

/// Values that differencing uses up.
pub open spec fn diff_lost(o: Order, so: Order) -> int {
    o.d + so.d * so.s
}

/// The shortest series that can be fit with `n_exog` exogenous columns: after
/// differencing and the lags, one row for each column of the design matrix.
pub open spec fn min_fit_len(o: Order, so: Order, n_exog: int) -> int {
    diff_lost(o, so) + nobs_lost(o, so) + n_columns(o, so, n_exog)
}

/// The entry at row `i`, column `c` of the design matrix built from `endog`
/// and `exog`: `k = i + nobs_lost` is the position of the row's target.
pub open spec fn design_entry<T>(
    o: Order,
    so: Order,
    endog: Seq<T>,
    exog: Seq<Vec<T>>,
    zero: T,
    one: T,
    i: int,
    c: int,
) -> T {
    let k = i + nobs_lost(o, so);
    let lag_start = 1 + o.q + so.q;
    let seasonal_lag_start = lag_start + o.p;
    let exog_start = seasonal_lag_start + so.p;
    if c == 0 {
        one
    } else if c < lag_start {
        zero
    } else if c < seasonal_lag_start {
        endog[k - (c - lag_start + 1)]
    } else if c < exog_start {
        endog[k - (c - seasonal_lag_start + 1) * so.s]
    } else {
        exog[k]@[c - exog_start]
    }
}

/// The width of a table: the length of its first row, zero when it has none.
pub open spec fn table_width<T>(t: Seq<Vec<T>>) -> nat {
    if t.len() == 0 {
        0
    } else {
        t[0]@.len()
    }
}

/// The view of an optional table.
pub open spec fn opt_view<T>(x: Option<&Vec<Vec<T>>>) -> Option<Seq<Vec<T>>> {
    match x {
        Some(t) => Some(t@),
        None => None,
    }
}

/// The number of exogenous columns that a fit with the table `x` records.
pub open spec fn fit_width<T>(x: Option<Seq<Vec<T>>>) -> nat {
    match x {
        Some(t) => table_width(t),
        None => 0,
    }
}

/// What `fit` returns for the orders `o` and `so`, a series of `n` values and
/// the exogenous table `x`.
pub open spec fn fit_outcome<T>(o: Order, so: Order, n: nat, x: Option<Seq<Vec<T>>>) -> Result<
    (),
    ModelError,
> {
    let w = fit_width(x);
    if x is Some && x->Some_0.len() != n {
        Err(ModelError::ExogLength { found: x->Some_0.len() as usize, expected: n as usize })
    } else if x is Some && !is_table(x->Some_0, w) {
        Err(ModelError::RaggedExog)
    } else if n < min_fit_len(o, so, w as int) {
        Err(ModelError::SeriesTooShort)
    } else {
        Ok(())
    }
}

/// What is wrong, if anything, with the exogenous table `x` given for `h`
/// rows: it must have `h` rows, and rows of equal length; once the model is
/// fit, `n_exog` columns (none stands for no columns).
pub open spec fn future_problem<T>(is_fit: bool, n_exog: nat, h: nat, x: Option<Seq<Vec<T>>>) -> Option<
    ModelError,
> {
    if x is None {
        if is_fit && n_exog != 0 {
            Some(ModelError::ExogColumns { found: 0, expected: n_exog as usize })
        } else {
            None
        }
    } else if x->Some_0.len() != h {
        Some(ModelError::ExogLength { found: x->Some_0.len() as usize, expected: h as usize })
    } else if is_fit && x->Some_0.len() > 0 && table_width(x->Some_0) != n_exog {
        Some(
            ModelError::ExogColumns {
                found: table_width(x->Some_0) as usize,
                expected: n_exog as usize,
            },
        )
    } else if !is_table(x->Some_0, table_width(x->Some_0)) {
        Some(ModelError::RaggedExog)
    } else {
        None
    }
}

/// The width that a table checked by `future_problem` has.
pub open spec fn future_width<T>(is_fit: bool, n_exog: nat, x: Option<Seq<Vec<T>>>) -> nat {
    if is_fit {
        n_exog
    } else {
        fit_width(x)
    }
}

/// What fitting must leave for the orders `o` and `so`, apart from the error
/// model's own state.
pub open spec fn fitted_base<T>(o: Order, so: Order, f: Fitted<T>) -> bool {
    &&& f.exog.len() == f.endog.len()
    &&& is_table(f.exog@, f.n_exog as nat)
    &&& f.endog.len() >= min_fit_len(o, so, f.n_exog as int)
    &&& f.coefs.len() == n_columns(o, so, f.n_exog as int)
    &&& f.residuals.len() == f.endog.len() - diff_lost(o, so) - nobs_lost(o, so)
    &&& (f.error_fit is Some <==> ma_rank(o, so) == 1)
}

proof fn lemma_seasonal_lag(k: int, sp: int, s: int, j: int)
    requires
        0 <= j < sp,
    ensures
        k - sp * s + s * (sp - 1 - j) == k - (j + 1) * s,
{
    assert(k - sp * s + s * (sp - 1 - j) == k - (j + 1) * s) by (nonlinear_arith);
}

impl<T: Copy> Model<T> {
    /// The non-seasonal order.
    pub closed spec fn spec_order(&self) -> Order {
        self.order
    }

    /// The seasonal order.
    pub closed spec fn spec_seasonal_order(&self) -> Order {
        self.seasonal_order
    }

    /// What the last fit left, if any.
    pub closed spec fn spec_fitted(&self) -> Option<Fitted<T>> {
        self.fitted
    }

    /// The series of the last fit, if any.
    pub open spec fn spec_endog(&self) -> Option<Seq<T>> {
        match self.spec_fitted() {
            Some(f) => Some(f.endog@),
            None => None,
        }
    }

    /// The exogenous table of the last fit, if any.
    pub open spec fn spec_exog(&self) -> Option<Seq<Vec<T>>> {
        match self.spec_fitted() {
            Some(f) => Some(f.exog@),
            None => None,
        }
    }

    /// The coefficients of the last fit, if any.
    pub open spec fn spec_coefs(&self) -> Option<Seq<T>> {
        match self.spec_fitted() {
            Some(f) => Some(f.coefs@),
            None => None,
        }
    }

    /// The residuals of the last fit, if any.
    pub open spec fn spec_residuals(&self) -> Option<Seq<T>> {
        match self.spec_fitted() {
            Some(f) => Some(f.residuals@),
            None => None,
        }
    }

    /// The fitted error model of the last fit, if any.
    pub open spec fn spec_error_fit(&self) -> Option<Model<T>> {
        match self.spec_fitted() {
            Some(f) => match f.error_fit {
                Some(m) => Some(*m),
                None => None,
            },
            None => None,
        }
    }

    /// The number of exogenous columns of the last fit; zero before any.
    pub open spec fn spec_n_exog(&self) -> nat {
        match self.spec_fitted() {
            Some(f) => f.n_exog as nat,
            None => 0,
        }
    }

    /// Whether the model has been fit.
    pub open spec fn spec_is_fit(&self) -> bool {
        self.spec_fitted() is Some
    }

    /// The invariant of a model apart from its error model's own state.
    pub closed spec fn wf_base(&self) -> bool {
        &&& self.order.s == 1
        &&& self.seasonal_order.s != 1
        &&& self.fitted matches Some(f) ==> fitted_base(self.order, self.seasonal_order, f)
    }

    /// The model's invariant: periodicities as the orders require; once fit, a
    /// table of one row per value, a series long enough, one coefficient per
    /// design column, one residual per row fit, and where there are
    /// moving-average terms a fitted error model with the same lags, no
    /// differencing or moving-average terms, and the same exogenous columns.
    pub open spec fn wf(&self) -> bool {
        &&& self.wf_base()
        &&& self.spec_error_fit() matches Some(m) ==> {
            &&& m.wf_base()
            &&& m.spec_is_fit()
            &&& m.spec_error_fit() is None
            &&& m.spec_n_exog() == self.spec_n_exog()
            &&& m.spec_endog()->Some_0.len() == self.spec_residuals()->Some_0.len()
            &&& m.spec_order() == (Order { p: self.spec_order().p, d: 0, q: 0, s: 1 })
            &&& m.spec_seasonal_order() == (Order {
                p: self.spec_seasonal_order().p,
                d: 0,
                q: 0,
                s: self.spec_seasonal_order().s,
            })
        }
    }

    /// Creates a seasonal ARIMA model: `order` is `(p, d, q)`, `seasonal_order`
    /// is `(P, D, Q, s)`. Fails when `s` is one.
    pub fn sarima(order: (usize, usize, usize), seasonal_order: (usize, usize, usize, usize)) -> (r:
        Result<Self, ModelError>)
        ensures
            r is Err <==> seasonal_order.3 == 1,
            r matches Err(e) ==> e == ModelError::SeasonalPeriodOne,
            r matches Ok(m) ==> {
                &&& m.wf()
                &&& !m.spec_is_fit()
                &&& !m.spec_is_fit()
                &&& m.spec_order() == (Order { p: order.0, d: order.1, q: order.2, s: 1 })
                &&& m.spec_seasonal_order() == (Order {
                    p: seasonal_order.0,
                    d: seasonal_order.1,
                    q: seasonal_order.2,
                    s: seasonal_order.3,
                })
            },
    {
        let (p, d, q) = order;
        let order = Order { p, d, q, s: 1 };
        let (p, d, q, s) = seasonal_order;
        if s == 1 {
            return Err(ModelError::SeasonalPeriodOne);
        }
        let seasonal_order = Order { p, d, q, s };
        Ok(Model { order, seasonal_order, fitted: None })
    }

    /// Creates an ARIMA model with `p` autoregressive terms, `d` differences and
    /// `q` moving-average terms.
    pub fn arima(p: usize, d: usize, q: usize) -> (r: Self)
        ensures
            r.wf(),
            !r.spec_is_fit(),
            !r.spec_is_fit(),
            r.spec_order() == (Order { p, d, q, s: 1 }),
            r.spec_seasonal_order() == (Order { p: 0, d: 0, q: 0, s: 0 }),
    {
        match Self::sarima((p, d, q), (0, 0, 0, 0)) {
            Ok(m) => m,
            Err(_) => {
                assert(false);
                Model {
                    order: Order { p, d, q, s: 1 },
                    seasonal_order: Order { p: 0, d: 0, q: 0, s: 0 },
                    fitted: None,
                }
            },
        }
    }

    /// Creates an ARMA model with `p` autoregressive and `q` moving-average terms.
    pub fn arma(p: usize, q: usize) -> (r: Self)
        ensures
            r.wf(),
            !r.spec_is_fit(),
            !r.spec_is_fit(),
            r.spec_order() == (Order { p, d: 0, q, s: 1 }),
            r.spec_seasonal_order() == (Order { p: 0, d: 0, q: 0, s: 0 }),
    {
        Self::arima(p, 0, q)
    }

    /// Creates an autoregressive model with `p` terms.
    pub fn autoregressive(p: usize) -> (r: Self)
        ensures
            r.wf(),
            !r.spec_is_fit(),
            !r.spec_is_fit(),
            r.spec_order() == (Order { p, d: 0, q: 0, s: 1 }),
            r.spec_seasonal_order() == (Order { p: 0, d: 0, q: 0, s: 0 }),
    {
        Self::arima(p, 0, 0)
    }

    /// Creates a moving-average model with `q` terms.
    pub fn moving_average(q: usize) -> (r: Self)
        ensures
            r.wf(),
            !r.spec_is_fit(),
            !r.spec_is_fit(),
            r.spec_order() == (Order { p: 0, d: 0, q, s: 1 }),
            r.spec_seasonal_order() == (Order { p: 0, d: 0, q: 0, s: 0 }),
    {
        Self::arima(0, 0, q)
    }

    /// The non-seasonal order.
    pub fn order(&self) -> (r: Order)
        ensures
            r == self.spec_order(),
    {
        self.order
    }

    /// The seasonal order.
    pub fn seasonal_order(&self) -> (r: Order)
        ensures
            r == self.spec_seasonal_order(),
    {
        self.seasonal_order
    }

    /// Whether a series of `n` values with `n_exog` exogenous columns is long
    /// enough to fit.
    fn long_enough(&self, n: usize, n_exog: usize) -> (r: bool)
        ensures
            r == (n >= min_fit_len(self.order, self.seasonal_order, n_exog as int)),
    {
        let o = self.order;
        let so = self.seasonal_order;
        let mut rest: usize = n;
        let seasonal_diff = match so.d.checked_mul(so.s) {
            Some(v) => v,
            None => {
                return false;
            },
        };
        let lost = match self.nobs_lost() {
            Some(v) => v,
            None => {
                return false;
            },
        };
        if rest < o.d {
            return false;
        }
        rest = rest - o.d;
        if rest < seasonal_diff {
            return false;
        }
        rest = rest - seasonal_diff;
        if rest < lost {
            return false;
        }
        rest = rest - lost;
        if rest < 1 {
            return false;
        }
        rest = rest - 1;
        if rest < o.q {
            return false;
        }
        rest = rest - o.q;
        if rest < so.q {
            return false;
        }
        rest = rest - so.q;
        if rest < o.p {
            return false;
        }
        rest = rest - o.p;
        if rest < so.p {
            return false;
        }
        rest = rest - so.p;
        rest >= n_exog
    }

    /// `max(p, P * s)`: the values that the lags use up; `None` when it does not
    /// fit in a `usize`.
    pub fn nobs_lost(&self) -> (r: Option<usize>)
        ensures
            r is Some <==> nobs_lost(self.spec_order(), self.spec_seasonal_order()) <= usize::MAX,
            r matches Some(v) ==> v == nobs_lost(self.spec_order(), self.spec_seasonal_order()),
    {
        match self.seasonal_order.p.checked_mul(self.seasonal_order.s) {
            Some(v) => {
                if self.order.p >= v {
                    Some(self.order.p)
                } else {
                    Some(v)
                }
            },
            None => None,
        }
    }

    /// Checks the series `y` and the exogenous table `x` (one row per value of
    /// `y`; none: no exogenous columns) of a fit, and returns copies of them and
    /// the table's width. Fails when `x` has another number of rows, when its
    /// rows differ in length, or when `y` is too short for the orders.
    pub fn check_fit(&self, y: &Vec<T>, x: Option<&Vec<Vec<T>>>) -> (r: Result<
        (Vec<T>, Vec<Vec<T>>, usize),
        ModelError,
    >)
        ensures
            r is Err <==> fit_outcome(self.spec_order(), self.spec_seasonal_order(), y@.len(), opt_view(x))
                is Err,
            r matches Err(e) ==> fit_outcome(
                self.spec_order(),
                self.spec_seasonal_order(),
                y@.len(),
                opt_view(x),
            ) == Err::<(), ModelError>(e),
            r matches Ok((ys, t, w)) ==> {
                &&& ys@ == y@
                &&& w == fit_width(opt_view(x))
                &&& t.len() == y.len()
                &&& is_table(t@, w as nat)
                &&& y.len() >= min_fit_len(self.spec_order(), self.spec_seasonal_order(), w as int)
                &&& forall|i: int|
                    0 <= i < y@.len() ==> (#[trigger] t@[i])@ == match x {
                        Some(xt) => xt@[i]@,
                        None => Seq::<T>::empty(),
                    }
            },
    {
        let (table, width) = match x {
            Some(t) => {
                if t.len() != y.len() {
                    return Err(ModelError::ExogLength { found: t.len(), expected: y.len() });
                }
                let width = if t.len() == 0 {
                    0
                } else {
                    t[0].len()
                };
                if !has_width(t, width) {
                    return Err(ModelError::RaggedExog);
                }
                (copy_table(t), width)
            },
            None => (empty_rows(y.len()), 0),
        };
        if !self.long_enough(y.len(), width) {
            return Err(ModelError::SeriesTooShort);
        }
        let ghost tv = table@;
        assert(is_table(tv, width as nat)) by {
            assert forall|i: int| 0 <= i < tv.len() implies (#[trigger] tv[i])@.len() == width by {
                match x {
                    Some(t) => {
                        assert(tv[i]@ == t@[i]@);
                    },
                    None => {},
                }
            }
        }
        Ok((copy_series(y), table, width))
    }

    /// Records what a fit left.
    pub fn install(&mut self, f: Fitted<T>)
        requires
            old(self).wf(),
            fitted_base(old(self).spec_order(), old(self).spec_seasonal_order(), f),
            f.error_fit matches Some(m) ==> {
                &&& m.wf_base()
                &&& m.spec_is_fit()
                &&& m.spec_error_fit() is None
                &&& m.spec_n_exog() == f.n_exog
                &&& m.spec_endog()->Some_0.len() == f.residuals.len()
                &&& m.spec_order() == (Order { p: old(self).spec_order().p, d: 0, q: 0, s: 1 })
                &&& m.spec_seasonal_order() == (Order {
                    p: old(self).spec_seasonal_order().p,
                    d: 0,
                    q: 0,
                    s: old(self).spec_seasonal_order().s,
                })
            },
        ensures
            final(self).wf(),
            final(self).spec_order() == old(self).spec_order(),
            final(self).spec_seasonal_order() == old(self).spec_seasonal_order(),
            final(self).spec_fitted() == Some(f),
    {
        self.fitted = Some(f);
    }

    /// Checks the exogenous table `x` given for `h` rows and returns it (none: a
    /// table of `h` empty rows). Fails when `x` has other than `h` rows or rows
    /// of differing lengths, or, once the model is fit, other columns than the
    /// fit had.
    pub fn unwrap_x(&self, x: Option<&Vec<Vec<T>>>, h: usize) -> (r: Result<Vec<Vec<T>>, ModelError>)
        requires
            self.wf(),
        ensures
            r is Ok <==> future_problem(
                self.spec_is_fit(),
                self.spec_n_exog(),
                h as nat,
                opt_view(x),
            ) is None,
            r matches Err(e) ==> future_problem(
                self.spec_is_fit(),
                self.spec_n_exog(),
                h as nat,
                opt_view(x),
            ) == Some(e),
            r matches Ok(t) ==> {
                &&& t.len() == h
                &&& is_table(t@, future_width(self.spec_is_fit(), self.spec_n_exog(), opt_view(x)))
                &&& forall|i: int|
                    0 <= i < h ==> (#[trigger] t@[i])@ == match x {
                        Some(xt) => xt@[i]@,
                        None => Seq::<T>::empty(),
                    }
            },
    {
        let n_exog: usize = match &self.fitted {
            Some(f) => f.n_exog,
            None => 0,
        };
        let is_fit = self.fitted.is_some();
        match x {
            None => {
                if is_fit && n_exog != 0 {
                    Err(ModelError::ExogColumns { found: 0, expected: n_exog })
                } else {
                    Ok(empty_rows(h))
                }
            },
            Some(t) => {
                if t.len() != h {
                    return Err(ModelError::ExogLength { found: t.len(), expected: h });
                }
                let width = if t.len() == 0 {
                    0
                } else {
                    t[0].len()
                };
                if is_fit && t.len() > 0 && width != n_exog {
                    return Err(ModelError::ExogColumns { found: width, expected: n_exog });
                }
                if !has_width(t, width) {
                    return Err(ModelError::RaggedExog);
                }
                let out = copy_table(t);
                assert(is_table(out@, width as nat)) by {
                    assert forall|i: int| 0 <= i < out@.len() implies (#[trigger] out@[i])@.len()
                        == width by {
                        assert(out@[i]@ == t@[i]@);
                    }
                }
                Ok(out)
            },
        }
    }

    /// The error-lag columns of the design matrix: where the error lags start,
    /// where the seasonal error lags start, and where they end.
    pub fn error_cols(&self) -> (r: (usize, usize, usize))
        requires
            n_columns(self.spec_order(), self.spec_seasonal_order(), 0) <= usize::MAX,
        ensures
            r == (1usize, (1 + self.spec_order().q) as usize, (1 + self.spec_order().q
                + self.spec_seasonal_order().q) as usize),
    {
        let error_start_col: usize = 1;
        let seasonal_error_start_col = error_start_col + self.order.q;
        let seasonal_error_end_col = seasonal_error_start_col + self.seasonal_order.q;
        (error_start_col, seasonal_error_start_col, seasonal_error_end_col)
    }

    /// The lag columns of the design matrix, after the error lags: where the lags
    /// start, where the seasonal lags start, and where they end.
    pub fn lag_cols(&self) -> (r: (usize, usize, usize))
        requires
            n_columns(self.spec_order(), self.spec_seasonal_order(), 0) <= usize::MAX,
        ensures
            ({
                let o = self.spec_order();
                let so = self.spec_seasonal_order();
                r == ((1 + o.q + so.q) as usize, (1 + o.q + so.q + o.p) as usize, (1 + o.q + so.q + o.p
                    + so.p) as usize)
            }),
    {
        let (_, _, lag_start_col) = self.error_cols();
        let seasonal_lag_start_col = lag_start_col + self.order.p;
        let seasonal_lag_end_col = seasonal_lag_start_col + self.seasonal_order.p;
        (lag_start_col, seasonal_lag_start_col, seasonal_lag_end_col)
    }

    /// The number of columns of the design matrix with `n_exog` exogenous columns.
    pub fn n_columns(&self, n_exog: usize) -> (r: usize)
        requires
            n_columns(self.spec_order(), self.spec_seasonal_order(), n_exog as int) <= usize::MAX,
        ensures
            r == n_columns(self.spec_order(), self.spec_seasonal_order(), n_exog as int),
    {
        let (_, _, end) = self.lag_cols();
        end + n_exog
    }

    /// Builds the design matrix and the targets from the differenced series
    /// `endog` and the exogenous table `exog`, one row per value: the first
    /// `nobs_lost` values only serve as lags. Each row holds `one` (intercept),
    /// `zero` in the error-lag columns, the lags and seasonal lags of its target,
    /// and its exogenous row. Fails when no value is left for a row.
    pub fn prepare_xy(&self, exog: &Vec<Vec<T>>, endog: &Vec<T>, zero: T, one: T) -> (r: Result<
        (Vec<Vec<T>>, Vec<T>),
        ModelError,
    >)
        requires
            exog.len() == endog.len(),
            is_table(exog@, table_width(exog@)),
            n_columns(self.spec_order(), self.spec_seasonal_order(), table_width(exog@) as int)
                <= usize::MAX,
        ensures
            r is Err <==> nobs_lost(self.spec_order(), self.spec_seasonal_order()) >= endog.len(),
            r matches Err(e) ==> e == ModelError::SeriesTooShort,
            r matches Ok((x, y)) ==> {
                let o = self.spec_order();
                let so = self.spec_seasonal_order();
                let lost = nobs_lost(o, so);
                &&& y@ == endog@.subrange(lost, endog.len() as int)
                &&& x.len() == y.len()
                &&& is_table(x@, n_columns(o, so, table_width(exog@) as int) as nat)
                &&& forall|i: int, c: int|
                    0 <= i < x.len() && 0 <= c < n_columns(o, so, table_width(exog@) as int)
                        ==> (#[trigger] x@[i]@[c]) == design_entry(o, so, endog@, exog@, zero, one, i, c)
            },
    {
        let ghost o = self.order;
        let ghost so = self.seasonal_order;
        let lost = match self.nobs_lost() {
            Some(v) => v,
            None => {
                return Err(ModelError::SeriesTooShort);
            },
        };
        if lost >= endog.len() {
            return Err(ModelError::SeriesTooShort);
        }
        let width: usize = if exog.len() == 0 {
            0
        } else {
            exog[0].len()
        };
        let ncols = self.n_columns(width);
        let p = self.order.p;
        let sp = self.seasonal_order.p;
        let s = self.seasonal_order.s;
        let seasonal_span = sp * s;
        let nobs = endog.len() - lost;
        let y_lags = create_lags(endog, p, 1);
        let y_lags_seasonal = create_lags(endog, sp, s);
        let n_errors = self.order.q + self.seasonal_order.q;
        let mut x: Vec<Vec<T>> = Vec::new();
        let mut i: usize = 0;
        while i < nobs
            invariant
                o == self.spec_order(),
                so == self.spec_seasonal_order(),
                lost == nobs_lost(o, so),
                lost < endog.len(),
                nobs == endog.len() - lost,
                seasonal_span == sp * s,
                p == o.p,
                sp == so.p,
                s == so.s,
                n_errors == o.q + so.q,
                width == table_width(exog@),
                ncols == n_columns(o, so, width as int),
                exog.len() == endog.len(),
                is_table(exog@, width as nat),
                y_lags.len() == endog.len() - p,
                is_table(y_lags@, p as nat),
                forall|a: int, j: int|
                    0 <= a < y_lags.len() && 0 <= j < p ==> (#[trigger] y_lags@[a]@[j]) == lag_entry(
                        endog@,
                        p as nat,
                        1,
                        a,
                        j,
                    ),
                y_lags_seasonal.len() == endog.len() - seasonal_span,
                is_table(y_lags_seasonal@, sp as nat),
                forall|a: int, j: int|
                    0 <= a < y_lags_seasonal.len() && 0 <= j < sp ==> (#[trigger] y_lags_seasonal@[a]@[j])
                        == lag_entry(endog@, sp as nat, s as nat, a, j),
                i <= nobs,
                x.len() == i,
                is_table(x@, ncols as nat),
                forall|a: int, c: int|
                    0 <= a < i && 0 <= c < ncols ==> (#[trigger] x@[a]@[c]) == design_entry(
                        o,
                        so,
                        endog@,
                        exog@,
                        zero,
                        one,
                        a,
                        c,
                    ),
            decreases nobs - i,
        {
            let k = lost + i;
            let mut row: Vec<T> = Vec::new();
            row.push(one);
            push_n(&mut row, zero, n_errors);
            push_all(&mut row, &y_lags[k - p]);
            push_all(&mut row, &y_lags_seasonal[k - seasonal_span]);
            push_all(&mut row, &exog[k]);
            proof {
                let lag_start = 1 + o.q + so.q;
                let seasonal_lag_start = lag_start + o.p;
                let exog_start = seasonal_lag_start + so.p;
                assert forall|c: int| 0 <= c < ncols implies (#[trigger] row@[c]) == design_entry(
                    o,
                    so,
                    endog@,
                    exog@,
                    zero,
                    one,
                    i as int,
                    c,
                ) by {
                    if lag_start <= c < seasonal_lag_start {
                        let j = c - lag_start;
                        assert(row@[c] == y_lags@[k - p]@[j]);
                    } else if seasonal_lag_start <= c < exog_start {
                        let j = c - seasonal_lag_start;
                        assert(row@[c] == y_lags_seasonal@[k - seasonal_span]@[j]);
                        lemma_seasonal_lag(k as int, sp as int, s as int, j);
                    }
                }
            }
            x.push(row);
            i = i + 1;
        }
        let mut y: Vec<T> = Vec::new();
        let mut j: usize = lost;
        while j < endog.len()
            invariant
                lost <= j <= endog.len(),
                y@ == endog@.subrange(lost as int, j as int),
            decreases endog.len() - j,
        {
            y.push(endog[j]);
            assert(y@ =~= endog@.subrange(lost as int, j + 1));
            j = j + 1;
        }
        Ok((x, y))
    }

    /// The model that forecasts future errors for the moving-average terms:
    /// present exactly when `q + Q > 0`, with the same lags and seasonal lags and
    /// periodicity, and no differencing or moving-average terms of its own.
    pub fn error_model(&self) -> (r: Option<Model<T>>)
        requires
            self.wf(),
        ensures
            r is Some <==> self.spec_order().q + self.spec_seasonal_order().q > 0,
            r matches Some(m) ==> {
                &&& m.wf()
                &&& !m.spec_is_fit()
                &&& !m.spec_is_fit()
                &&& m.spec_order() == (Order { p: self.spec_order().p, d: 0, q: 0, s: 1 })
                &&& m.spec_seasonal_order() == (Order {
                    p: self.spec_seasonal_order().p,
                    d: 0,
                    q: 0,
                    s: self.spec_seasonal_order().s,
                })
            },
    {
        if self.order.q == 0 && self.seasonal_order.q == 0 {
            return None;
        }
        match Self::sarima((self.order.p, 0, 0), (self.seasonal_order.p, 0, 0, self.seasonal_order.s)) {
            Ok(m) => Some(m),
            Err(_) => None,
        }
    }

    /// Whether the model has been fit.
    pub fn is_fit(&self) -> (r: bool)
        ensures
            r == self.spec_is_fit(),
    {
        self.fitted.is_some()
    }

    /// What the last fit left, if any.
    pub fn fitted(&self) -> (r: Option<&Fitted<T>>)
        ensures
            r is Some <==> self.spec_fitted() is Some,
            r matches Some(f) ==> self.spec_fitted() == Some(*f),
    {
        match &self.fitted {
            Some(f) => Some(f),
            None => None,
        }
    }

    /// The series of the last fit, if any.
    pub fn endog_fit(&self) -> (r: Option<&Vec<T>>)
        ensures
            r is Some <==> self.spec_endog() is Some,
            r matches Some(v) ==> self.spec_endog() == Some(v@),
    {
        match &self.fitted {
            Some(f) => Some(&f.endog),
            None => None,
        }
    }

    /// The exogenous table of the last fit, if any.
    pub fn exog_fit(&self) -> (r: Option<&Vec<Vec<T>>>)
        ensures
            r is Some <==> self.spec_exog() is Some,
            r matches Some(v) ==> self.spec_exog() == Some(v@),
    {
        match &self.fitted {
            Some(f) => Some(&f.exog),
            None => None,
        }
    }

    /// The coefficients of the last fit, one per design column: intercept, error
    /// lags, seasonal error lags, lags, seasonal lags, exogenous columns.
    pub fn coefs(&self) -> (r: Option<&Vec<T>>)
        ensures
            r is Some <==> self.spec_coefs() is Some,
            r matches Some(v) ==> self.spec_coefs() == Some(v@),
    {
        match &self.fitted {
            Some(f) => Some(&f.coefs),
            None => None,
        }
    }

    /// The number of exogenous columns of the last fit; zero before any.
    pub fn n_exog(&self) -> (r: usize)
        ensures
            r == self.spec_n_exog(),
    {
        match &self.fitted {
            Some(f) => f.n_exog,
            None => 0,
        }
    }

    /// What the invariant says of a model's orders and fitted state.
    pub proof fn lemma_wf(&self)
        requires
            self.wf(),
        ensures
            self.spec_order().s == 1,
            self.spec_seasonal_order().s != 1,
            self.spec_fitted() matches Some(f) ==> fitted_base(
                self.spec_order(),
                self.spec_seasonal_order(),
                f,
            ),
    {
    }
}

} // verus!
