use vstd::prelude::*;
use crate::lags::{has_width, is_table};
use crate::order::ModelError;
use crate::scalar::{rows, Scalar};

verus! {

/// The sum of the products of `a` and `b`, entry by entry, over the entries
/// of `a`.
pub open spec fn spec_dot<T: Scalar>(a: Seq<T>, b: Seq<T>) -> T
    decreases a.len(),
{
    if a.len() == 0 {
        T::spec_zero()
    } else {
        spec_dot(a.drop_last(), b).spec_plus(a.last().spec_times(b[a.len() - 1]))
    }
}

/// Entry `(a, b)` of `XᵗX` over the first `n` rows of `x`.
pub open spec fn gram_entry<T: Scalar>(x: Seq<Seq<T>>, n: nat, a: int, b: int) -> T
    decreases n,
{
    if n == 0 {
        T::spec_zero()
    } else {
        gram_entry(x, (n - 1) as nat, a, b).spec_plus(x[n - 1][a].spec_times(x[n - 1][b]))
    }
}

/// Entry `a` of `Xᵗy` over the first `n` rows of `x` and of `y`.
pub open spec fn moment_entry<T: Scalar>(x: Seq<Seq<T>>, y: Seq<T>, n: nat, a: int) -> T
    decreases n,
{
    if n == 0 {
        T::spec_zero()
    } else {
        moment_entry(x, y, (n - 1) as nat, a).spec_plus(x[n - 1][a].spec_times(y[n - 1]))
    }
}

/// `XᵗX` over the first `n` rows of `x`, `cols` by `cols`.
pub open spec fn spec_gram<T: Scalar>(x: Seq<Seq<T>>, n: nat, cols: nat) -> Seq<Seq<T>> {
    Seq::new(cols, |a: int| Seq::new(cols, |b: int| gram_entry(x, n, a, b)))
}

/// `Xᵗy` over the first `n` rows of `x` and of `y`.
pub open spec fn spec_moment<T: Scalar>(x: Seq<Seq<T>>, y: Seq<T>, n: nat, cols: nat) -> Seq<T> {
    Seq::new(cols, |a: int| moment_entry(x, y, n, a))
}

/// `g` with one added to each entry of its diagonal but the first.
pub open spec fn spec_ridge<T: Scalar>(g: Seq<Seq<T>>, cols: nat) -> Seq<Seq<T>> {
    Seq::new(
        cols,
        |a: int|
            Seq::new(
                cols,
                |b: int|
                    if a == b && a >= 1 {
                        g[a][b].spec_plus(T::spec_one())
                    } else {
                        g[a][b]
                    },
            ),
    )
}

/// The product of the matrix `m` (`cols` rows) and the vector `v`.
pub open spec fn spec_mat_vec<T: Scalar>(m: Seq<Seq<T>>, v: Seq<T>, cols: nat) -> Seq<T> {
    Seq::new(cols, |b: int| spec_dot(m[b], v))
}

/// The inverse of `m`, where there is one and it is `n` by `n`.
pub open spec fn checked_inverse_of<T: Scalar>(m: Seq<Seq<T>>, n: nat) -> Option<Seq<Seq<T>>> {
    match T::spec_inverse(m) {
        Some(v) => if v.len() == n && forall|i: int| 0 <= i < v.len() ==> (#[trigger] v[i]).len() == n {
            Some(v)
        } else {
            None
        },
        None => None,
    }
}

/// Least squares by the normal equations over the first `n` rows of `x` and of
/// `y`: `(XᵗX)⁻¹ Xᵗy`, or with the ridge penalty where `XᵗX` has no inverse;
/// `None` where neither has one.
pub open spec fn spec_solve<T: Scalar>(x: Seq<Seq<T>>, n: nat, cols: nat, y: Seq<T>) -> Option<Seq<T>> {
    let g = spec_gram(x, n, cols);
    let m = spec_moment(x, y, n, cols);
    match checked_inverse_of(g, cols) {
        Some(inv) => Some(spec_mat_vec(inv, m, cols)),
        None => match checked_inverse_of(spec_ridge(g, cols), cols) {
            Some(inv) => Some(spec_mat_vec(inv, m, cols)),
            None => None,
        },
    }
}

proof fn lemma_sums_prefix<T: Scalar>(x1: Seq<Seq<T>>, x2: Seq<Seq<T>>, y1: Seq<T>, y2: Seq<T>, n: nat)
    requires
        forall|k: int| 0 <= k < n ==> x1[k] == x2[k] && y1[k] == y2[k],
    ensures
        forall|a: int, b: int| #[trigger] gram_entry(x1, n, a, b) == gram_entry(x2, n, a, b),
        forall|a: int| #[trigger] moment_entry(x1, y1, n, a) == moment_entry(x2, y2, n, a),
    decreases n,
{
    if n > 0 {
        lemma_sums_prefix(x1, x2, y1, y2, (n - 1) as nat);
        assert forall|a: int, b: int| #[trigger] gram_entry(x1, n, a, b) == gram_entry(x2, n, a, b) by {
            assert(gram_entry(x1, (n - 1) as nat, a, b) == gram_entry(x2, (n - 1) as nat, a, b));
        }
        assert forall|a: int| #[trigger] moment_entry(x1, y1, n, a) == moment_entry(x2, y2, n, a) by {
            assert(moment_entry(x1, y1, (n - 1) as nat, a) == moment_entry(x2, y2, (n - 1) as nat, a));
        }
    }
}

/// The regression over the first `n` rows reads those rows only.
pub proof fn lemma_solve_prefix<T: Scalar>(
    x1: Seq<Seq<T>>,
    x2: Seq<Seq<T>>,
    y1: Seq<T>,
    y2: Seq<T>,
    n: nat,
    cols: nat,
)
    requires
        forall|k: int| 0 <= k < n ==> x1[k] == x2[k] && y1[k] == y2[k],
    ensures
        spec_solve(x1, n, cols, y1) == spec_solve(x2, n, cols, y2),
{
    lemma_sums_prefix(x1, x2, y1, y2, n);
    assert(spec_gram(x1, n, cols) =~~= spec_gram(x2, n, cols));
    assert(spec_moment(x1, y1, n, cols) =~= spec_moment(x2, y2, n, cols));
}

/// The sum of the products of `a` and `b`, entry by entry.
pub fn dot<T: Scalar>(a: &Vec<T>, b: &Vec<T>) -> (r: T)
    requires
        a.len() == b.len(),
    ensures
        r == spec_dot(a@, b@),
{
    let mut acc = T::zero();
    let mut i: usize = 0;
    assert(a@.subrange(0, 0).len() == 0);
    while i < a.len()
        invariant
            i <= a.len(),
            a.len() == b.len(),
            acc == spec_dot(a@.subrange(0, i as int), b@),
        decreases a.len() - i,
    {
        assert(a@.subrange(0, i + 1).drop_last() =~= a@.subrange(0, i as int));
        acc = acc.plus(a[i].times(b[i]));
        i = i + 1;
    }
    assert(a@.subrange(0, a.len() as int) =~= a@);
    acc
}

/// `XᵗX` over the first `n` rows of `x`, a table of `cols` columns.
fn gram<T: Scalar>(x: &Vec<Vec<T>>, n: usize, cols: usize) -> (r: Vec<Vec<T>>)
    requires
        n <= x.len(),
        is_table(x@, cols as nat),
    ensures
        r.len() == cols,
        is_table(r@, cols as nat),
        rows(r@) == spec_gram(rows(x@), n as nat, cols as nat),
{
    let ghost xs = rows(x@);
    let mut out: Vec<Vec<T>> = Vec::new();
    let mut a: usize = 0;
    while a < cols
        invariant
            a <= cols,
            n <= x.len(),
            is_table(x@, cols as nat),
            xs == rows(x@),
            out.len() == a,
            is_table(out@, cols as nat),
            forall|i: int| 0 <= i < a ==> (#[trigger] out@[i])@ == spec_gram(xs, n as nat, cols as nat)[i],
        decreases cols - a,
    {
        let mut row: Vec<T> = Vec::new();
        let mut b: usize = 0;
        while b < cols
            invariant
                a < cols,
                b <= cols,
                n <= x.len(),
                is_table(x@, cols as nat),
                xs == rows(x@),
                row.len() == b,
                forall|j: int| 0 <= j < b ==> row@[j] == gram_entry(xs, n as nat, a as int, j),
            decreases cols - b,
        {
            let mut acc = T::zero();
            let mut k: usize = 0;
            while k < n
                invariant
                    a < cols,
                    b < cols,
                    k <= n,
                    n <= x.len(),
                    is_table(x@, cols as nat),
                    xs == rows(x@),
                    acc == gram_entry(xs, k as nat, a as int, b as int),
                decreases n - k,
            {
                assert(x@[k as int]@.len() == cols);
                assert(xs[k as int] == x@[k as int]@);
                acc = acc.plus(x[k][a].times(x[k][b]));
                k = k + 1;
            }
            row.push(acc);
            b = b + 1;
        }
        assert(row@ =~= spec_gram(xs, n as nat, cols as nat)[a as int]);
        out.push(row);
        a = a + 1;
    }
    assert(rows(out@) =~= spec_gram(xs, n as nat, cols as nat));
    out
}

/// `Xᵗy` over the first `n` rows of `x` (a table of `cols` columns) and of `y`.
fn moment<T: Scalar>(x: &Vec<Vec<T>>, n: usize, cols: usize, y: &Vec<T>) -> (r: Vec<T>)
    requires
        n <= x.len(),
        n <= y.len(),
        is_table(x@, cols as nat),
    ensures
        r@ == spec_moment(rows(x@), y@, n as nat, cols as nat),
{
    let ghost xs = rows(x@);
    let mut out: Vec<T> = Vec::new();
    let mut a: usize = 0;
    while a < cols
        invariant
            a <= cols,
            n <= x.len(),
            n <= y.len(),
            is_table(x@, cols as nat),
            xs == rows(x@),
            out.len() == a,
            forall|i: int| 0 <= i < a ==> out@[i] == moment_entry(xs, y@, n as nat, i),
        decreases cols - a,
    {
        let mut acc = T::zero();
        let mut k: usize = 0;
        while k < n
            invariant
                a < cols,
                k <= n,
                n <= x.len(),
                n <= y.len(),
                is_table(x@, cols as nat),
                xs == rows(x@),
                acc == moment_entry(xs, y@, k as nat, a as int),
            decreases n - k,
        {
            assert(x@[k as int]@.len() == cols);
            assert(xs[k as int] == x@[k as int]@);
            acc = acc.plus(x[k][a].times(y[k]));
            k = k + 1;
        }
        out.push(acc);
        a = a + 1;
    }
    assert(out@ =~= spec_moment(xs, y@, n as nat, cols as nat));
    out
}

/// The inverse of the `n` by `n` matrix `m`, when it has one and the inverse
/// that comes back is `n` by `n`.
fn checked_inverse<T: Scalar>(m: &Vec<Vec<T>>, n: usize) -> (r: Option<Vec<Vec<T>>>)
    ensures
        r is Some <==> checked_inverse_of(rows(m@), n as nat) is Some,
        r matches Some(v) ==> v.len() == n && is_table(v@, n as nat) && rows(v@) == checked_inverse_of(
            rows(m@),
            n as nat,
        )->Some_0,
{
    match T::inverse(m) {
        Some(v) => {
            if v.len() == n && has_width(&v, n) {
                assert(forall|i: int| 0 <= i < rows(v@).len() ==> (#[trigger] rows(v@)[i]).len() == n);
                Some(v)
            } else {
                proof {
                    if v.len() == n {
                        let i = choose|i: int| 0 <= i < v@.len() && (#[trigger] v@[i])@.len() != n;
                        assert(rows(v@)[i].len() != n);
                    }
                }
                None
            }
        },
        None => None,
    }
}

/// Least squares by the normal equations, `(XᵗX)⁻¹ Xᵗy`, over the first
/// `n` rows of `x` (a table of `cols` columns) and of `y`. Where `XᵗX` is
/// singular, one is added to each entry of its diagonal but the intercept's
/// (the first) and the inverse is tried once more; fails where that is
/// singular too.
pub fn solve<T: Scalar>(x: &Vec<Vec<T>>, n: usize, cols: usize, y: &Vec<T>) -> (r: Result<
    Vec<T>,
    ModelError,
>)
    requires
        n <= x.len(),
        n <= y.len(),
        is_table(x@, cols as nat),
    ensures
        r is Ok <==> spec_solve(rows(x@), n as nat, cols as nat, y@) is Some,
        r matches Ok(w) ==> w@ == spec_solve(rows(x@), n as nat, cols as nat, y@)->Some_0,
        r matches Err(e) ==> e == ModelError::Singular,
{
    let ghost xs = rows(x@);
    let mut square = gram(x, n, cols);
    let ghost g = rows(square@);
    let inverse = match checked_inverse(&square, cols) {
        Some(v) => v,
        None => {
            let mut a: usize = 1;
            while a < cols
                invariant
                    1 <= a,
                    square.len() == cols,
                    is_table(square@, cols as nat),
                    g.len() == cols,
                    forall|i: int| 0 <= i < cols ==> (#[trigger] g[i]).len() == cols,
                    forall|i: int, j: int|
                        0 <= i < cols && 0 <= j < cols ==> (#[trigger] square@[i]@[j]) == if i == j && 1
                            <= i < a {
                            g[i][j].spec_plus(T::spec_one())
                        } else {
                            g[i][j]
                        },
                decreases cols - a,
            {
                let v = square[a][a].plus(T::one());
                square[a][a] = v;
                a = a + 1;
            }
            assert(rows(square@) =~~= spec_ridge(g, cols as nat));
            match checked_inverse(&square, cols) {
                Some(v) => v,
                None => {
                    return Err(ModelError::Singular);
                },
            }
        },
    };
    let xty = moment(x, n, cols, y);
    let ghost inv = rows(inverse@);
    let mut w: Vec<T> = Vec::new();
    let mut b: usize = 0;
    while b < cols
        invariant
            b <= cols,
            inverse.len() == cols,
            is_table(inverse@, cols as nat),
            inv == rows(inverse@),
            xty.len() == cols,
            w.len() == b,
            forall|i: int| 0 <= i < b ==> w@[i] == spec_dot(inv[i], xty@),
        decreases cols - b,
    {
        assert(inverse@[b as int]@.len() == cols);
        w.push(dot(&inverse[b], &xty));
        b = b + 1;
    }
    assert(w@ =~= spec_mat_vec(inv, xty@, cols as nat));
    Ok(w)
}

} // verus!
