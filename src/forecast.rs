use vstd::prelude::*;
use crate::lags::{copy_series, filled, is_table, move_up};
use crate::model::{
    design_entry, diff_lost, fit_outcome, fit_width, fitted_base, future_problem, ma_rank, n_columns,
    nobs_lost, opt_view, table_width, Fitted, Model,
};
use crate::order::{ModelError, Order};
use crate::scalar::{rows, Scalar};
use crate::solve::{dot, lemma_solve_prefix, solve, spec_dot, spec_solve};
use crate::transform::{diff_all, diff_all1d, diff_all2d, diff_rows_all, integrate_all, undo_all};

verus! {

/// The errors that fitting on `n` values with the table `x` and then
/// predicting `h` values with the table `x_future` may end in: the error of the
/// fit's input where it has one; else a singular regression or a series of
/// errors too short for the error model, met by the fit, or the error of the
/// future table.
pub open spec fn forecast_outcome<T>(
    o: Order,
    so: Order,
    n: nat,
    h: nat,
    x: Option<Seq<Vec<T>>>,
    x_future: Option<Seq<Vec<T>>>,
    r: Result<Vec<T>, ModelError>,
) -> bool {
    let fitted = fit_outcome(o, so, n, x);
    let future = future_problem(true, fit_width(x), h, x_future);
    if fitted is Err {
        r == Err::<Vec<T>, ModelError>(fitted->Err_0)
    } else {
        &&& r matches Err(e) ==> e == ModelError::Singular || (e == ModelError::SeriesTooShort
            && ma_rank(o, so) == 1) || future == Some(e)
        &&& r is Ok ==> future is None
    }
}

/// Row `i` of the design matrix as the forecaster leaves it, from the row
/// `row0` that it started with: its error-lag columns hold the errors before
/// `i`, its lag columns the values of the series before `i` (the seasonal
/// ones where the periodicity is positive), and its other columns are as they
/// were.
pub open spec fn forecast_row<T>(
    o: Order,
    so: Order,
    row: Seq<T>,
    row0: Seq<T>,
    y: Seq<T>,
    errors: Seq<T>,
    i: int,
) -> bool {
    let e1 = 1 + o.q;
    let e2 = e1 + so.q;
    let l1 = e2 + o.p;
    let l2 = l1 + so.p;
    &&& row.len() == row0.len()
    &&& filled(row, row0, errors, i, 1, e1, 1)
    &&& filled(row, row0, errors, i, e1, e2, so.s as int)
    &&& filled(row, row0, y, i, e2, l1, 1)
    &&& (so.s >= 1 ==> filled(row, row0, y, i, l1, l2, so.s as int))
    &&& forall|c: int| (0 <= c < 1 || l2 <= c < row.len()) ==> #[trigger] row[c] == row0[c]
}

/// Row `i` of the design matrix as the estimator leaves it, from the row
/// `row0` that it started with: its error-lag columns hold the errors before
/// `i` (the seasonal ones where the periodicity is positive), and its other
/// columns are as they were.
pub open spec fn fit_row<T>(o: Order, so: Order, row: Seq<T>, row0: Seq<T>, errors: Seq<T>, i: int) -> bool {
    let e1 = 1 + o.q;
    let e2 = e1 + so.q;
    &&& row.len() == row0.len()
    &&& filled(row, row0, errors, i, 1, e1, 1)
    &&& (so.s >= 1 ==> filled(row, row0, errors, i, e1, e2, so.s as int))
    &&& forall|c: int| (0 <= c < 1 || e2 <= c < row.len()) ==> #[trigger] row[c] == row0[c]
}

/// `filled` only reads the values before position `i`, for a positive
/// periodicity.
proof fn lemma_filled_prefix<T>(
    row: Seq<T>,
    row0: Seq<T>,
    v: Seq<T>,
    w: Seq<T>,
    i: int,
    start: int,
    end: int,
    s: int,
)
    requires
        filled(row, row0, v, i, start, end, s),
        s >= 1,
        0 <= i <= v.len(),
        i <= w.len(),
        v.subrange(0, i) == w.subrange(0, i),
    ensures
        filled(row, row0, w, i, start, end, s),
{
    assert forall|c: int| start <= c < end implies #[trigger] row[c] == if (c - start + 1) * s <= i {
        w[i - (c - start + 1) * s]
    } else {
        row0[c]
    } by {
        if (c - start + 1) * s <= i {
            assert((c - start + 1) * s >= 1) by (nonlinear_arith)
                requires
                    c - start + 1 >= 1,
                    s >= 1,
            ;
            let k = i - (c - start + 1) * s;
            assert(v.subrange(0, i)[k] == v[k]);
            assert(w.subrange(0, i)[k] == w[k]);
        }
    }
}

/// The row `i` of the design matrix that `prepare_xy` builds, over `ncols`
/// columns.
pub open spec fn design_row<T>(
    o: Order,
    so: Order,
    endog: Seq<T>,
    exog: Seq<Vec<T>>,
    zero: T,
    one: T,
    ncols: nat,
    i: int,
) -> Seq<T> {
    Seq::new(ncols, |c: int| design_entry(o, so, endog, exog, zero, one, i, c))
}

/// The design matrix and the filling step agree on the lag columns: in row `i`
/// of the design matrix, whose target is the value at `i + nobs_lost`, each
/// lag and seasonal lag column holds exactly what filling that row from the
/// series at that position writes, whatever the row held before.
pub proof fn lemma_lags_agree<T>(
    o: Order,
    so: Order,
    endog: Seq<T>,
    exog: Seq<Vec<T>>,
    zero: T,
    one: T,
    ncols: nat,
    i: int,
    row0: Seq<T>,
)
    requires
        0 <= i,
        i + nobs_lost(o, so) < endog.len(),
        n_columns(o, so, 0) <= ncols,
    ensures
        ({
            let row = design_row(o, so, endog, exog, zero, one, ncols, i);
            let k = i + nobs_lost(o, so);
            let lag_start = 1 + o.q + so.q;
            let seasonal_lag_start = lag_start + o.p;
            &&& filled(row, row0, endog, k, lag_start, seasonal_lag_start, 1)
            &&& filled(row, row0, endog, k, seasonal_lag_start, seasonal_lag_start + so.p, so.s as int)
        }),
{
    let row = design_row(o, so, endog, exog, zero, one, ncols, i);
    let k = i + nobs_lost(o, so);
    let lag_start = 1 + o.q + so.q;
    let seasonal_lag_start = lag_start + o.p;
    assert forall|c: int| seasonal_lag_start <= c < seasonal_lag_start + so.p implies #[trigger] row[c]
        == if (c - seasonal_lag_start + 1) * so.s <= k {
        endog[k - (c - seasonal_lag_start + 1) * so.s]
    } else {
        row0[c]
    } by {
        let j = c - seasonal_lag_start + 1;
        assert(j * so.s <= so.p * so.s) by (nonlinear_arith)
            requires
                1 <= j <= so.p,
        ;
    }
}

/// `n` zeros.
fn zeros<T: Scalar>(n: usize) -> (r: Vec<T>)
    ensures
        r.len() == n,
        forall|k: int| 0 <= k < n ==> #[trigger] r@[k] == T::spec_zero(),
{
    let mut out: Vec<T> = Vec::new();
    let mut i: usize = 0;
    while i < n
        invariant
            i <= n,
            out.len() == i,
            forall|k: int| 0 <= k < i ==> #[trigger] out@[k] == T::spec_zero(),
        decreases n - i,
    {
        out.push(T::zero());
        i = i + 1;
    }
    out
}

/// The values of `y` from `lo` up to `hi`.
fn slice_series<T: Copy>(y: &Vec<T>, lo: usize, hi: usize) -> (r: Vec<T>)
    requires
        lo <= hi <= y.len(),
    ensures
        r@ == y@.subrange(lo as int, hi as int),
{
    let mut out: Vec<T> = Vec::new();
    let mut i: usize = lo;
    while i < hi
        invariant
            lo <= i <= hi,
            hi <= y.len(),
            out@ == y@.subrange(lo as int, i as int),
        decreases hi - i,
    {
        out.push(y[i]);
        assert(out@ =~= y@.subrange(lo as int, i + 1));
        i = i + 1;
    }
    out
}

/// A copy of the rows of `a` from `lo` up to `hi`.
fn slice_rows<T: Copy>(a: &Vec<Vec<T>>, lo: usize, hi: usize) -> (r: Vec<Vec<T>>)
    requires
        lo <= hi <= a.len(),
    ensures
        r.len() == hi - lo,
        forall|i: int| 0 <= i < hi - lo ==> (#[trigger] r@[i])@ == a@[lo + i]@,
{
    let mut out: Vec<Vec<T>> = Vec::new();
    let mut i: usize = lo;
    while i < hi
        invariant
            lo <= i <= hi,
            hi <= a.len(),
            out.len() == i - lo,
            forall|k: int| 0 <= k < i - lo ==> (#[trigger] out@[k])@ == a@[lo + k]@,
        decreases hi - i,
    {
        out.push(copy_series(&a[i]));
        i = i + 1;
    }
    out
}

/// The rows of `a` followed by the rows of `b`.
fn concat_rows<T: Copy>(a: &Vec<Vec<T>>, b: &Vec<Vec<T>>) -> (r: Vec<Vec<T>>)
    requires
        a.len() + b.len() <= usize::MAX,
    ensures
        r.len() == a.len() + b.len(),
        forall|i: int| 0 <= i < a.len() ==> (#[trigger] r@[i])@ == a@[i]@,
        forall|i: int| 0 <= i < b.len() ==> (#[trigger] r@[a.len() + i])@ == b@[i]@,
{
    let mut out = slice_rows(a, 0, a.len());
    let mut i: usize = 0;
    while i < b.len()
        invariant
            i <= b.len(),
            a.len() + b.len() <= usize::MAX,
            out.len() == a.len() + i,
            forall|k: int| 0 <= k < a.len() ==> (#[trigger] out@[k])@ == a@[k]@,
            forall|k: int| 0 <= k < i ==> (#[trigger] out@[a.len() + k])@ == b@[k]@,
        decreases b.len() - i,
    {
        out.push(copy_series(&b[i]));
        i = i + 1;
    }
    out
}

/// The values of `a` followed by the values of `b`.
fn concat_series<T: Copy>(a: &Vec<T>, b: &Vec<T>) -> (r: Vec<T>)
    requires
        a.len() + b.len() <= usize::MAX,
    ensures
        r@ == a@ + b@,
{
    let mut out = copy_series(a);
    let mut i: usize = 0;
    while i < b.len()
        invariant
            i <= b.len(),
            out@ == a@ + b@.subrange(0, i as int),
        decreases b.len() - i,
    {
        out.push(b[i]);
        assert(out@ =~= a@ + b@.subrange(0, i + 1));
        i = i + 1;
    }
    assert(b@.subrange(0, b.len() as int) =~= b@);
    out
}

impl<T: Scalar> Model<T> {
    /// Differences the series of the fit and the exogenous table of the fit
    /// followed by the future one; the differenced series is followed by `h`
    /// zeros, one for each value to predict.
    fn difference_xy(
        &self,
        exog_fit: &Vec<Vec<T>>,
        exog_future: &Vec<Vec<T>>,
        endog_fit: &Vec<T>,
        width: usize,
        h: usize,
    ) -> (r: (Vec<Vec<T>>, Vec<T>))
        requires
            exog_fit.len() == endog_fit.len(),
            exog_future.len() == h,
            is_table(exog_fit@, width as nat),
            is_table(exog_future@, width as nat),
            diff_lost(self.spec_order(), self.spec_seasonal_order()) < endog_fit.len(),
            endog_fit.len() + h <= usize::MAX,
        ensures
            r.1.len() == endog_fit.len() + h - diff_lost(self.spec_order(), self.spec_seasonal_order()),
            r.0.len() == r.1.len(),
            is_table(r.0@, width as nat),
            rows(r.0@) == diff_rows_all(
                rows(exog_fit@) + rows(exog_future@),
                width as nat,
                self.spec_order().d as nat,
                self.spec_seasonal_order().d as nat,
                self.spec_seasonal_order().s as nat,
            ),
            r.1@ == diff_all(
                endog_fit@,
                self.spec_order().d as nat,
                self.spec_seasonal_order().d as nat,
                self.spec_seasonal_order().s as nat,
            ) + Seq::new(h as nat, |_i: int| T::spec_zero()),
    {
        let o = self.order();
        let so = self.seasonal_order();
        let exog = concat_rows(exog_fit, exog_future);
        assert(is_table(exog@, width as nat)) by {
            assert forall|i: int| 0 <= i < exog@.len() implies (#[trigger] exog@[i])@.len()
                == width by {
                if i >= exog_fit.len() {
                    assert(exog@[exog_fit.len() + (i - exog_fit.len())]@ == exog_future@[i
                        - exog_fit.len()]@);
                }
            }
        }
        assert(rows(exog@) =~= rows(exog_fit@) + rows(exog_future@)) by {
            assert forall|i: int| 0 <= i < exog@.len() implies rows(exog@)[i] == (rows(exog_fit@) + rows(
                exog_future@,
            ))[i] by {
                if i >= exog_fit.len() {
                    assert(exog@[exog_fit.len() + (i - exog_fit.len())]@ == exog_future@[i
                        - exog_fit.len()]@);
                }
            }
        }
        let exog_diff = diff_all2d(&exog, width, o.d, so.d, so.s);
        let endog_diff = diff_all1d(endog_fit, o.d, so.d, so.s);
        let tail = zeros(h);
        assert(tail@ =~= Seq::new(h as nat, |_i: int| T::spec_zero()));
        let endog_diff = concat_series(&endog_diff, &tail);
        (exog_diff, endog_diff)
    }

    /// The recursive estimator over the rows of `x`: for each row `i` from
    /// `ncols` on, fills its error-lag columns from the errors of the rows before
    /// it, solves the regression over the rows before it, and records as error
    /// `i` the target less the row's prediction. The errors of the first `ncols`
    /// rows stay zero. The coefficients returned are those of the regression over
    /// all the rows.
    fn fit_internal(&self, y: &Vec<T>, x: &mut Vec<Vec<T>>, ncols: usize) -> (r: Result<
        (Vec<T>, Vec<T>),
        ModelError,
    >)
        requires
            old(x).len() == y.len(),
            is_table(old(x)@, ncols as nat),
            n_columns(self.spec_order(), self.spec_seasonal_order(), 0) <= ncols,
            ncols <= y.len(),
        ensures
            final(x).len() == y.len(),
            is_table(final(x)@, ncols as nat),
            r matches Ok((coefs, errors)) ==> {
                &&& coefs.len() == ncols
                &&& errors.len() == y.len()
                &&& coefs@ == spec_solve(rows(final(x)@), y.len() as nat, ncols as nat, y@)->Some_0
                &&& forall|k: int| 0 <= k < ncols ==> #[trigger] errors@[k] == T::spec_zero()
                &&& forall|k: int|
                    ncols <= k < y.len() ==> #[trigger] errors@[k] == y@[k].spec_minus(
                        spec_dot(
                            final(x)@[k]@,
                            spec_solve(rows(final(x)@), k as nat, ncols as nat, y@)->Some_0,
                        ),
                    )
                &&& forall|k: int| 0 <= k < ncols ==> #[trigger] final(x)@[k] == old(x)@[k]
                &&& forall|k: int|
                    ncols <= k < y.len() ==> fit_row(
                        self.spec_order(),
                        self.spec_seasonal_order(),
                        #[trigger] final(x)@[k]@,
                        old(x)@[k]@,
                        errors@,
                        k,
                    )
            },
            r is Err ==> r == Err::<(Vec<T>, Vec<T>), ModelError>(ModelError::Singular) && exists|k: nat|
                ncols <= k <= y.len() && #[trigger] spec_solve(rows(final(x)@), k, ncols as nat, y@)
                    is None,
    {
        let ghost x0 = x@;
        let ghost o = self.spec_order();
        let ghost so = self.spec_seasonal_order();
        let (error_start_col, seasonal_error_start_col, seasonal_error_end_col) = self.error_cols();
        let s = self.seasonal_order().s;
        let mut errors = zeros(y.len());
        let end = y.len();
        let mut i: usize = ncols;
        while i < end
            invariant
                ncols <= i <= end,
                end == y.len(),
                x.len() == y.len(),
                x0.len() == y.len(),
                errors.len() == y.len(),
                is_table(x@, ncols as nat),
                is_table(x0, ncols as nat),
                o == self.spec_order(),
                so == self.spec_seasonal_order(),
                s == so.s,
                error_start_col == 1,
                seasonal_error_start_col == 1 + o.q,
                seasonal_error_end_col == 1 + o.q + so.q,
                seasonal_error_end_col <= ncols,
                forall|k: int| (0 <= k < ncols || i <= k < x.len()) ==> #[trigger] x@[k] == x0[k],
                forall|k: int| ncols <= k < i ==> fit_row(o, so, #[trigger] x@[k]@, x0[k]@, errors@, k),
                forall|k: int| (0 <= k < ncols || i <= k < y.len()) ==> #[trigger] errors@[k] == T::spec_zero(),
                forall|k: int|
                    ncols <= k < i ==> #[trigger] errors@[k] == y@[k].spec_minus(
                        spec_dot(x@[k]@, spec_solve(rows(x@), k as nat, ncols as nat, y@)->Some_0),
                    ),
            decreases end - i,
        {
            let ghost xb = x@;
            move_up(i, x, &errors, error_start_col, seasonal_error_start_col, 1);
            move_up(i, x, &errors, seasonal_error_start_col, seasonal_error_end_col, s);
            let ghost eb = errors@;
            assert(fit_row(o, so, x@[i as int]@, x0[i as int]@, eb, i as int));
            proof {
                assert forall|k: int| ncols <= k < i implies #[trigger] errors@[k] == y@[k].spec_minus(
                    spec_dot(x@[k]@, spec_solve(rows(x@), k as nat, ncols as nat, y@)->Some_0),
                ) by {
                    assert forall|j: int| 0 <= j < k implies rows(xb)[j] == rows(x@)[j] && y@[j] == y@[j] by {
                        assert(xb[j] == x@[j]);
                    }
                    lemma_solve_prefix(rows(xb), rows(x@), y@, y@, k as nat, ncols as nat);
                    assert(xb[k] == x@[k]);
                }
            }
            let coefs = match solve(x, i, ncols, y) {
                Ok(c) => c,
                Err(e) => {
                    assert(spec_solve(rows(x@), i as nat, ncols as nat, y@) is None);
                    return Err(e);
                },
            };
            assert(x@[i as int]@.len() == ncols);
            let y_pred_i = dot(&x[i], &coefs);
            errors[i] = y[i].minus(y_pred_i);
            proof {
                assert forall|k: int| ncols <= k <= i implies fit_row(
                    o,
                    so,
                    #[trigger] x@[k]@,
                    x0[k]@,
                    errors@,
                    k,
                ) by {
                    assert(eb.subrange(0, k) =~= errors@.subrange(0, k));
                    lemma_filled_prefix(x@[k]@, x0[k]@, eb, errors@, k, 1, 1 + o.q, 1);
                    if s >= 1 {
                        lemma_filled_prefix(
                            x@[k]@,
                            x0[k]@,
                            eb,
                            errors@,
                            k,
                            1 + o.q,
                            1 + o.q + so.q,
                            s as int,
                        );
                    }
                }
            }
            i = i + 1;
        }
        let coefs = match solve(x, end, ncols, y) {
            Ok(c) => c,
            Err(e) => {
                assert(spec_solve(rows(x@), end as nat, ncols as nat, y@) is None);
                return Err(e);
            },
        };
        Ok((coefs, errors))
    }

    /// The forecaster over the last `h` rows of `x`: fills each row's lag columns
    /// from the series as predicted so far and its error-lag columns from
    /// `errors`, predicts its value and writes it into `y`. Returns the `h`
    /// values predicted.
    fn predict_internal(
        &self,
        h: usize,
        y: &mut Vec<T>,
        x: &mut Vec<Vec<T>>,
        coefs: &Vec<T>,
        errors: &Vec<T>,
    ) -> (r: Vec<T>)
        requires
            old(x).len() == old(y).len(),
            errors.len() == old(y).len(),
            h <= old(y).len(),
            coefs.len() == table_width(old(x)@),
            is_table(old(x)@, table_width(old(x)@)),
            n_columns(self.spec_order(), self.spec_seasonal_order(), 0) <= table_width(old(x)@),
        ensures
            r.len() == h,
            final(y).len() == old(y).len(),
            final(y)@.subrange(0, old(y).len() - h) == old(y)@.subrange(0, old(y).len() - h),
            r@ == final(y)@.subrange(old(y).len() - h, old(y).len() as int),
            forall|k: int|
                old(y).len() - h <= k < old(y).len() ==> #[trigger] final(y)@[k] == spec_dot(
                    final(x)@[k]@,
                    coefs@,
                ),
            final(x).len() == old(x).len(),
            forall|k: int| 0 <= k < old(y).len() - h ==> #[trigger] final(x)@[k] == old(x)@[k],
            forall|k: int|
                old(y).len() - h <= k < old(y).len() ==> forecast_row(
                    self.spec_order(),
                    self.spec_seasonal_order(),
                    #[trigger] final(x)@[k]@,
                    old(x)@[k]@,
                    final(y)@,
                    errors@,
                    k,
                ),
    {
        let ghost ncols = table_width(x@);
        let ghost y0 = y@;
        let ghost x0 = x@;
        let ghost o = self.spec_order();
        let ghost so = self.spec_seasonal_order();
        let (lag_start_col, seasonal_lag_start_col, seasonal_lag_end_col) = self.lag_cols();
        let (error_start_col, seasonal_error_start_col, seasonal_error_end_col) = self.error_cols();
        let s = self.seasonal_order().s;
        let start = y.len() - h;
        let mut i: usize = start;
        while i < y.len()
            invariant
                start <= i <= y.len(),
                start == y0.len() - h,
                y.len() == y0.len(),
                x.len() == y.len(),
                x0.len() == y.len(),
                errors.len() == y.len(),
                coefs.len() == ncols,
                is_table(x@, ncols),
                is_table(x0, ncols),
                y@.subrange(0, start as int) == y0.subrange(0, start as int),
                o == self.spec_order(),
                so == self.spec_seasonal_order(),
                s == so.s,
                error_start_col == 1,
                seasonal_error_start_col == 1 + o.q,
                seasonal_error_end_col == 1 + o.q + so.q,
                lag_start_col == 1 + o.q + so.q,
                seasonal_lag_start_col == 1 + o.q + so.q + o.p,
                seasonal_lag_end_col == 1 + o.q + so.q + o.p + so.p,
                seasonal_lag_end_col <= ncols,
                forall|k: int| (0 <= k < start || i <= k < x.len()) ==> #[trigger] x@[k] == x0[k],
                forall|k: int|
                    start <= k < i ==> forecast_row(o, so, #[trigger] x@[k]@, x0[k]@, y@, errors@, k),
                forall|k: int| start <= k < i ==> #[trigger] y@[k] == spec_dot(x@[k]@, coefs@),
            decreases y.len() - i,
        {
            let ghost xb = x@;
            move_up(i, x, y, lag_start_col, seasonal_lag_start_col, 1);
            move_up(i, x, y, seasonal_lag_start_col, seasonal_lag_end_col, s);
            move_up(i, x, errors, error_start_col, seasonal_error_start_col, 1);
            move_up(i, x, errors, seasonal_error_start_col, seasonal_error_end_col, s);
            let ghost yb = y@;
            assert(forecast_row(o, so, x@[i as int]@, x0[i as int]@, yb, errors@, i as int));
            assert(x@[i as int]@.len() == ncols);
            let v = dot(&x[i], coefs);
            y[i] = v;
            proof {
                assert(yb.subrange(0, i as int) =~= y@.subrange(0, i as int));
                assert forall|k: int| start <= k <= i implies forecast_row(
                    o,
                    so,
                    #[trigger] x@[k]@,
                    x0[k]@,
                    y@,
                    errors@,
                    k,
                ) by {
                    assert(yb.subrange(0, k) =~= y@.subrange(0, k));
                    lemma_filled_prefix(
                        x@[k]@,
                        x0[k]@,
                        yb,
                        y@,
                        k,
                        lag_start_col as int,
                        seasonal_lag_start_col as int,
                        1,
                    );
                    if s >= 1 {
                        lemma_filled_prefix(
                            x@[k]@,
                            x0[k]@,
                            yb,
                            y@,
                            k,
                            seasonal_lag_start_col as int,
                            seasonal_lag_end_col as int,
                            s as int,
                        );
                    }
                }
            }
            assert(y@.subrange(0, start as int) =~= y0.subrange(0, start as int));
            i = i + 1;
        }
        slice_series(y, start, y.len())
    }

    /// The residuals of the fit followed by `h` future errors: forecast by the
    /// fitted error model from the future rows `exog_future` of the differenced
    /// exogenous table where the model has moving-average terms, zero otherwise.
    fn forecast_errors(&self, h: usize, exog_future: &Vec<Vec<T>>) -> (r: Vec<T>)
        requires
            self.wf(),
            self.spec_is_fit(),
            exog_future.len() == h,
            is_table(exog_future@, self.spec_n_exog()),
            self.spec_endog()->Some_0.len() + h <= usize::MAX,
        ensures
            r.len() == self.spec_residuals()->Some_0.len() + h,
            r@.subrange(0, self.spec_residuals()->Some_0.len() as int) == self.spec_residuals()->Some_0,
            ma_rank(self.spec_order(), self.spec_seasonal_order()) == 0 ==> forall|k: int|
                self.spec_residuals()->Some_0.len() <= k < r.len() ==> #[trigger] r@[k] == T::spec_zero(),
        decreases ma_rank(self.spec_order(), self.spec_seasonal_order()), 1int,
    {
        proof {
            self.lemma_wf();
        }
        let f = match self.fitted() {
            Some(f) => f,
            None => {
                return zeros(h);
            },
        };
        let future = match &f.error_fit {
            Some(m) => {
                assert(table_width(exog_future@) == self.spec_n_exog() || h == 0);
                match m.predict_values(h, Some(exog_future)) {
                    Ok(v) => v,
                    Err(_) => {
                        proof {
                            assert(false);
                        }
                        zeros(h)
                    },
                }
            },
            None => zeros(h),
        };
        let out = concat_series(&f.residuals, &future);
        assert(out@.subrange(0, f.residuals.len() as int) =~= f.residuals@);
        out
    }

    /// Inverts the differencing of the predicted values, seeded from the series
    /// of the fit.
    fn integrate_predictions(&self, y_preds: &Vec<T>, endog_fit: &Vec<T>) -> (r: Vec<T>)
        requires
            diff_lost(self.spec_order(), self.spec_seasonal_order()) < endog_fit.len(),
        ensures
            r@ == undo_all(
                y_preds@,
                endog_fit@,
                self.spec_order().d as nat,
                self.spec_seasonal_order().d as nat,
                self.spec_seasonal_order().s as nat,
            ),
            r.len() == y_preds.len(),
    {
        let o = self.order();
        let so = self.seasonal_order();
        integrate_all(y_preds, endog_fit, o.d, so.d, so.s)
    }

    /// The forecaster: differences the series of the fit and the exogenous table
    /// followed by `x`, extends the series by `h` rows, fills each new row's lags
    /// from the values predicted before it and its error lags from the residuals
    /// and the forecast errors, predicts it with the coefficients of the fit, and
    /// integrates the `h` predictions back. Fails only when the model is not fit
    /// or `x` does not match the fit.
    fn predict_values(&self, h: usize, x: Option<&Vec<Vec<T>>>) -> (r: Result<Vec<T>, ModelError>)
        requires
            self.wf(),
            self.spec_endog() matches Some(y) ==> y.len() + h <= usize::MAX,
        ensures
            r is Ok <==> self.spec_is_fit() && future_problem(true, self.spec_n_exog(), h as nat, opt_view(x))
                is None,
            r matches Err(e) ==> if self.spec_is_fit() {
                future_problem(true, self.spec_n_exog(), h as nat, opt_view(x)) == Some(e)
            } else {
                e == ModelError::NotFit
            },
            r matches Ok(v) ==> v.len() == h,
        decreases ma_rank(self.spec_order(), self.spec_seasonal_order()), 2int,
    {
        proof {
            self.lemma_wf();
        }
        let f = match self.fitted() {
            Some(f) => f,
            None => {
                return Err(ModelError::NotFit);
            },
        };
        let exog_future = self.unwrap_x(x, h)?;
        let width = f.n_exog;
        let (exog_diff, endog_diff) = self.difference_xy(&f.exog, &exog_future, &f.endog, width, h);
        assert(table_width(exog_diff@) == width) by {
            assert(exog_diff@[0]@.len() == width);
        }
        let future_rows = slice_rows(&exog_diff, exog_diff.len() - h, exog_diff.len());
        assert(is_table(future_rows@, width as nat)) by {
            assert forall|i: int| 0 <= i < future_rows@.len() implies (#[trigger] future_rows@[i])@.len()
                == width by {
                assert(future_rows@[i]@ == exog_diff@[exog_diff.len() - h + i]@);
            }
        }
        let (mut xm, mut yd) = match self.prepare_xy(&exog_diff, &endog_diff, T::zero(), T::one()) {
            Ok(v) => v,
            Err(_) => {
                proof {
                    assert(false);
                }
                return Err(ModelError::SeriesTooShort);
            },
        };
        let errors = self.forecast_errors(h, &future_rows);
        assert(table_width(xm@) == f.coefs.len()) by {
            assert(xm@[0]@.len() == f.coefs.len());
        }
        let preds = self.predict_internal(h, &mut yd, &mut xm, &f.coefs, &errors);
        Ok(self.integrate_predictions(&preds, &f.endog))
    }

    /// Predicts `h` values after the series of the fit, with the future
    /// exogenous table `x` (`h` rows; none: no exogenous columns). Fails only
    /// when the model is not fit or `x` does not match the fit; the model is left
    /// as it was.
    pub fn predict(&mut self, h: usize, x: Option<&Vec<Vec<T>>>) -> (r: Result<Vec<T>, ModelError>)
        requires
            old(self).wf(),
            old(self).spec_endog() matches Some(y) ==> y.len() + h <= usize::MAX,
        ensures
            *final(self) == *old(self),
            r is Ok <==> old(self).spec_is_fit() && future_problem(
                true,
                old(self).spec_n_exog(),
                h as nat,
                opt_view(x),
            ) is None,
            r matches Err(e) ==> if old(self).spec_is_fit() {
                future_problem(true, old(self).spec_n_exog(), h as nat, opt_view(x)) == Some(e)
            } else {
                e == ModelError::NotFit
            },
            r matches Ok(v) ==> v.len() == h,
    {
        self.predict_values(h, x)
    }

    /// Fits the model on the series `y` with the exogenous table `x`, one row per
    /// value of `y` (none: no exogenous columns): differences both, builds the
    /// design matrix, runs the recursive estimator for the coefficients and the
    /// residuals, and fits the error model on the residuals where there are
    /// moving-average terms. Fails, leaving the model as it was, when `x` has
    /// another number of rows or rows of differing lengths, when `y` is too short
    /// for the orders, when a regression stays singular, or when the residuals
    /// are too short for the error model.
    pub fn fit(&mut self, y: &Vec<T>, x: Option<&Vec<Vec<T>>>) -> (r: Result<(), ModelError>)
        requires
            old(self).wf(),
        ensures
            final(self).wf(),
            final(self).spec_order() == old(self).spec_order(),
            final(self).spec_seasonal_order() == old(self).spec_seasonal_order(),
            fit_outcome(old(self).spec_order(), old(self).spec_seasonal_order(), y@.len(), opt_view(x))
                matches Err(e) ==> r == Err::<(), ModelError>(e),
            r matches Err(e) ==> *final(self) == *old(self) && (fit_outcome(
                old(self).spec_order(),
                old(self).spec_seasonal_order(),
                y@.len(),
                opt_view(x),
            ) == Err::<(), ModelError>(e) || e == ModelError::Singular || (e
                == ModelError::SeriesTooShort && ma_rank(
                old(self).spec_order(),
                old(self).spec_seasonal_order(),
            ) == 1)),
            r is Ok ==> {
                &&& final(self).spec_is_fit()
                &&& fitted_base(
                    old(self).spec_order(),
                    old(self).spec_seasonal_order(),
                    final(self).spec_fitted()->Some_0,
                )
                &&& final(self).spec_endog() == Some(y@)
                &&& final(self).spec_n_exog() == fit_width(opt_view(x))
                &&& final(self).spec_coefs() is Some
                &&& final(self).spec_coefs()->Some_0.len() == n_columns(
                    old(self).spec_order(),
                    old(self).spec_seasonal_order(),
                    fit_width(opt_view(x)) as int,
                )
            },
        decreases ma_rank(old(self).spec_order(), old(self).spec_seasonal_order()),
    {
        proof {
            self.lemma_wf();
        }
        let (ys, table, width) = self.check_fit(y, x)?;
        let o = self.order();
        let so = self.seasonal_order();
        let exog_diff = diff_all2d(&table, width, o.d, so.d, so.s);
        let endog_diff = diff_all1d(&ys, o.d, so.d, so.s);
        assert(table_width(exog_diff@) == width) by {
            assert(exog_diff@[0]@.len() == width);
        }
        let (mut xm, yd) = match self.prepare_xy(&exog_diff, &endog_diff, T::zero(), T::one()) {
            Ok(v) => v,
            Err(_) => {
                proof {
                    assert(false);
                }
                return Err(ModelError::SeriesTooShort);
            },
        };
        let ncols = self.n_columns(width);
        let (coefs, residuals) = match self.fit_internal(&yd, &mut xm, ncols) {
            Ok(v) => v,
            Err(e) => {
                return Err(e);
            },
        };
        let error_fit = match self.error_model() {
            Some(mut m) => {
                let lost = match self.nobs_lost() {
                    Some(v) => v,
                    None => {
                        proof {
                            assert(false);
                        }
                        return Err(ModelError::SeriesTooShort);
                    },
                };
                let sub_exog = slice_rows(&exog_diff, lost, exog_diff.len());
                assert(is_table(sub_exog@, width as nat)) by {
                    assert forall|i: int| 0 <= i < sub_exog@.len() implies (#[trigger] sub_exog@[i])@.len()
                        == width by {
                        assert(sub_exog@[i]@ == exog_diff@[lost + i]@);
                    }
                }
                assert(table_width(sub_exog@) == width) by {
                    assert(sub_exog@[0]@.len() == width);
                }
                match m.fit(&residuals, Some(&sub_exog)) {
                    Ok(()) => Some(Box::new(m)),
                    Err(e) => {
                        return Err(e);
                    },
                }
            },
            None => None,
        };
        self.install(Fitted { endog: ys, exog: table, n_exog: width, coefs, residuals, error_fit });
        Ok(())
    }

    /// Fits the model on `y` with the exogenous table `x`, then predicts `h`
    /// values with the future exogenous table `x_future`.
    pub fn forecast(
        &mut self,
        y: &Vec<T>,
        h: usize,
        x: Option<&Vec<Vec<T>>>,
        x_future: Option<&Vec<Vec<T>>>,
    ) -> (r: Result<Vec<T>, ModelError>)
        requires
            old(self).wf(),
            y.len() + h <= usize::MAX,
        ensures
            final(self).wf(),
            final(self).spec_order() == old(self).spec_order(),
            final(self).spec_seasonal_order() == old(self).spec_seasonal_order(),
            r matches Ok(v) ==> v.len() == h,
            r is Ok ==> final(self).spec_endog() == Some(y@),
            forecast_outcome(
                old(self).spec_order(),
                old(self).spec_seasonal_order(),
                y@.len(),
                h as nat,
                opt_view(x),
                opt_view(x_future),
                r,
            ),
    {
        self.fit(y, x)?;
        self.predict(h, x_future)
    }

    /// The same as `forecast`.
    pub fn fit_predict(
        &mut self,
        y: &Vec<T>,
        h: usize,
        x: Option<&Vec<Vec<T>>>,
        x_future: Option<&Vec<Vec<T>>>,
    ) -> (r: Result<Vec<T>, ModelError>)
        requires
            old(self).wf(),
            y.len() + h <= usize::MAX,
        ensures
            final(self).wf(),
            r matches Ok(v) ==> v.len() == h,
            forecast_outcome(
                old(self).spec_order(),
                old(self).spec_seasonal_order(),
                y@.len(),
                h as nat,
                opt_view(x),
                opt_view(x_future),
                r,
            ),
    {
        self.forecast(y, h, x, x_future)
    }
}

} // verus!
