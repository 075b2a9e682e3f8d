use vstd::prelude::*;
use crate::lags::{copy_series, copy_table, is_table};
use crate::scalar::{rows, Scalar};

verus! {

/// Adding back what was subtracted gives the number back: true of exact
/// arithmetic (integers, rationals), not of floating point.
pub open spec fn cancels<T: Scalar>() -> bool {
    forall|a: T, b: T| #[trigger] a.spec_minus(b).spec_plus(b) == a
}

/// One differencing pass at periodicity `s`: `y'[i] = y[i + s] - y[i]`.
pub open spec fn diff_once<T: Scalar>(y: Seq<T>, s: nat) -> Seq<T> {
    Seq::new((y.len() - s) as nat, |i: int| y[i + s].spec_minus(y[i]))
}

/// `d` differencing passes at periodicity `s`.
pub open spec fn diff_n<T: Scalar>(y: Seq<T>, d: nat, s: nat) -> Seq<T>
    decreases d,
{
    if d == 0 {
        y
    } else {
        diff_once(diff_n(y, (d - 1) as nat, s), s)
    }
}

/// `d` plain passes followed by `sd` seasonal passes at periodicity `s`.
pub open spec fn diff_all<T: Scalar>(y: Seq<T>, d: nat, sd: nat, s: nat) -> Seq<T> {
    diff_n(diff_n(y, d, 1), sd, s)
}

/// The seed `w` followed by the values rebuilt from `z`: each new value is
/// `z[i]` plus the value `s` places before it (periodicity zero: `z[i]`
/// itself).
pub open spec fn extend<T: Scalar>(z: Seq<T>, w: Seq<T>, s: nat) -> Seq<T>
    decreases z.len(),
{
    if z.len() == 0 {
        w
    } else {
        let e = extend(z.drop_last(), w, s);
        e.push(z.last().spec_plus(if s == 0 {
            z.last()
        } else {
            e[e.len() - s]
        }))
    }
}

/// One integration pass: the values rebuilt from `z` after the seed `w`.
pub open spec fn integrate_seq<T: Scalar>(z: Seq<T>, w: Seq<T>, s: nat) -> Seq<T> {
    extend(z, w, s).subrange(w.len() as int, (w.len() + z.len()) as int)
}

/// Undo `k` passes at periodicity `s`, from the highest level down; the seed
/// of the pass that leaves level `j` is `base` differenced `j - 1` times.
pub open spec fn undo<T: Scalar>(z: Seq<T>, base: Seq<T>, k: nat, s: nat) -> Seq<T>
    decreases k,
{
    if k == 0 {
        z
    } else {
        let j = (k - 1) as nat;
        undo(integrate_seq(z, diff_n(base, j, s), s), base, j, s)
    }
}

/// The full inverse transform: seasonal passes undone first, then plain ones,
/// each seeded from `orig` differenced to the matching level.
pub open spec fn undo_all<T: Scalar>(z: Seq<T>, orig: Seq<T>, d: nat, sd: nat, s: nat) -> Seq<T> {
    undo(undo(z, diff_n(orig, d, 1), sd, s), orig, d, 1)
}

pub proof fn lemma_diff_n_len<T: Scalar>(y: Seq<T>, d: nat, s: nat)
    requires
        d * s <= y.len(),
    ensures
        diff_n(y, d, s).len() == y.len() - d * s,
    decreases d,
{
    if d > 0 {
        let j = (d - 1) as nat;
        lemma_mul_pred(d, s);
        lemma_diff_n_len(y, j, s);
    } else {
        lemma_mul_zero(d, s);
    }
}

proof fn lemma_mul_zero(d: nat, s: nat)
    requires
        d == 0,
    ensures
        d * s == 0,
{
    assert(d * s == 0) by (nonlinear_arith)
        requires
            d == 0,
    ;
}

proof fn lemma_mul_pred(d: nat, s: nat)
    requires
        d > 0,
    ensures
        (d - 1) as nat * s <= d * s,
        d * s == (d - 1) as nat * s + s,
{
    let j = (d - 1) as nat;
    assert(d * s == j * s + s) by (nonlinear_arith)
        requires
            j == d - 1,
    ;
}

/// Differencing a prefix gives a prefix of the differenced series.
pub proof fn lemma_diff_n_prefix<T: Scalar>(y: Seq<T>, m: nat, d: nat, s: nat)
    requires
        d * s <= m <= y.len(),
    ensures
        diff_n(y.subrange(0, m as int), d, s) == diff_n(y, d, s).subrange(0, m - d * s),
    decreases d,
{
    if d > 0 {
        let j = (d - 1) as nat;
        lemma_mul_pred(d, s);
        lemma_diff_n_prefix(y, m, j, s);
        lemma_diff_n_len(y, j, s);
        lemma_diff_n_len(y.subrange(0, m as int), j, s);
        let a = diff_n(y.subrange(0, m as int), j, s);
        let b = diff_n(y, j, s);
        assert(diff_once(a, s) =~= diff_once(b, s).subrange(0, m - d * s));
    } else {
        lemma_mul_zero(d, s);
        assert(y.subrange(0, m as int) =~= y.subrange(0, m - d * s));
    }
}

/// The prefix of length `n` of `z` rebuilds a prefix of what `z` rebuilds.
pub proof fn lemma_extend_prefix<T: Scalar>(z: Seq<T>, w: Seq<T>, s: nat, n: nat)
    requires
        n <= z.len(),
    ensures
        extend(z, w, s).len() == w.len() + z.len(),
        extend(z.subrange(0, n as int), w, s) == extend(z, w, s).subrange(0, (w.len() + n) as int),
    decreases z.len(),
{
    if z.len() > 0 {
        lemma_extend_prefix(z.drop_last(), w, s, if n == z.len() { 0 } else { n });
        if n == z.len() {
            assert(z.subrange(0, n as int) =~= z);
            assert(extend(z, w, s).subrange(0, (w.len() + n) as int) =~= extend(z, w, s));
        } else {
            assert(z.subrange(0, n as int) =~= z.drop_last().subrange(0, n as int));
            let e = extend(z.drop_last(), w, s);
            assert(extend(z, w, s).subrange(0, (w.len() + n) as int) =~= e.subrange(0, (w.len() + n) as int));
        }
    } else {
        assert(z.subrange(0, n as int) =~= z);
        assert(extend(z, w, s).subrange(0, (w.len() + n) as int) =~= extend(z, w, s));
    }
}

/// One integration pass, seeded with the first `m` values of `y`, rebuilds the
/// rest of `y` from its differences.
pub proof fn lemma_integrate_once<T: Scalar>(y: Seq<T>, m: nat, s: nat)
    requires
        cancels::<T>(),
        1 <= s <= m <= y.len(),
    ensures
        integrate_seq(diff_once(y, s).subrange(m - s, y.len() - s), y.subrange(0, m as int), s)
            == y.subrange(m as int, y.len() as int),
{
    let x = diff_once(y, s);
    let z = x.subrange(m - s, y.len() - s);
    let w = y.subrange(0, m as int);
    assert forall|n: nat| n <= z.len() implies extend(z.subrange(0, n as int), w, s)
        == y.subrange(0, (m + n) as int) by {
        lemma_extend_rebuilds(y, m, s, n);
        assert(z.subrange(0, n as int) =~= x.subrange(m - s, m - s + n));
    }
    assert(z.subrange(0, z.len() as int) =~= z);
    lemma_extend_prefix(z, w, s, z.len());
    assert(integrate_seq(z, w, s) =~= y.subrange(m as int, y.len() as int));
}

proof fn lemma_extend_rebuilds<T: Scalar>(y: Seq<T>, m: nat, s: nat, n: nat)
    requires
        cancels::<T>(),
        1 <= s <= m,
        m + n <= y.len(),
    ensures
        extend(diff_once(y, s).subrange(m - s, m - s + n), y.subrange(0, m as int), s)
            == y.subrange(0, (m + n) as int),
    decreases n,
{
    let z = diff_once(y, s).subrange(m - s, m - s + n);
    let w = y.subrange(0, m as int);
    if n == 0 {
        assert(z.len() == 0);
    } else {
        lemma_extend_rebuilds(y, m, s, (n - 1) as nat);
        assert(z.drop_last() =~= diff_once(y, s).subrange(m - s, m - s + n - 1));
        let e = extend(z.drop_last(), w, s);
        assert(e == y.subrange(0, m + n - 1));
        assert(e[e.len() - s] == y[m + n - 1 - s]);
        assert(z.last() == y[m + n - 1].spec_minus(y[m + n - 1 - s]));
        assert(y[m + n - 1].spec_minus(y[m + n - 1 - s]).spec_plus(y[m + n - 1 - s]) == y[m + n
            - 1]);
        assert(e.push(z.last().spec_plus(if s == 0 {
            z.last()
        } else {
            e[e.len() - s]
        })) =~= y.subrange(0, (m + n) as int));
    }
}


/// Undoing `k` passes on the tail of the `k`-times differenced series, seeded
/// from the first `t` values, rebuilds the series from position `t` on.
pub proof fn lemma_undo_levels<T: Scalar>(b: Seq<T>, t: nat, k: nat, s: nat)
    requires
        cancels::<T>(),
        k * s <= t <= b.len(),
        k > 0 ==> s >= 1,
    ensures
        undo(diff_n(b, k, s).subrange(t - k * s, b.len() - k * s), b.subrange(0, t as int), k, s)
            == b.subrange(t as int, b.len() as int),
    decreases k,
{
    if k == 0 {
        lemma_mul_zero(k, s);
        assert(diff_n(b, k, s).subrange(t - k * s, b.len() - k * s) =~= b.subrange(
            t as int,
            b.len() as int,
        ));
    } else {
        let j = (k - 1) as nat;
        lemma_mul_pred(k, s);
        let y = diff_n(b, j, s);
        let m = (t - j * s) as nat;
        lemma_diff_n_len(b, j, s);
        lemma_integrate_once(y, m, s);
        lemma_diff_n_prefix(b, t, j, s);
        lemma_undo_levels(b, t, j, s);
    }
}

/// Differencing a series (`d` plain passes, then `sd` seasonal passes at
/// periodicity `s`) and then integrating the part of it past the first `t`
/// values, seeded from those `t` values, gives back the series past position
/// `t` exactly, for numbers whose subtraction addition undoes.
pub proof fn lemma_round_trip<T: Scalar>(y: Seq<T>, t: nat, d: nat, sd: nat, s: nat)
    requires
        cancels::<T>(),
        d + sd * s <= t <= y.len(),
        sd > 0 ==> s >= 1,
    ensures
        undo_all(
            diff_all(y, d, sd, s).subrange(t - d - sd * s, y.len() - d - sd * s),
            y.subrange(0, t as int),
            d,
            sd,
            s,
        ) == y.subrange(t as int, y.len() as int),
{
    lemma_mul_one(d);
    let p = diff_n(y, d, 1);
    lemma_diff_n_len(y, d, 1);
    lemma_diff_n_prefix(y, t, d, 1);
    lemma_undo_levels(p, (t - d) as nat, sd, s);
    lemma_undo_levels(y, t, d, 1);
}

proof fn lemma_mul_one(d: nat)
    ensures
        d * 1 == d,
{
}



/// One differencing pass over the rows of a table of `w` columns: row `i + s`
/// less row `i`, entry by entry.
pub open spec fn diff_rows_once<T: Scalar>(a: Seq<Seq<T>>, w: nat, s: nat) -> Seq<Seq<T>> {
    Seq::new((a.len() - s) as nat, |i: int| Seq::new(w, |j: int| a[i + s][j].spec_minus(a[i][j])))
}

/// `d` differencing passes over the rows of a table.
pub open spec fn diff_rows_n<T: Scalar>(a: Seq<Seq<T>>, w: nat, d: nat, s: nat) -> Seq<Seq<T>>
    decreases d,
{
    if d == 0 {
        a
    } else {
        diff_rows_once(diff_rows_n(a, w, (d - 1) as nat, s), w, s)
    }
}

/// `d` plain passes, then `sd` seasonal passes, over the rows of a table.
pub open spec fn diff_rows_all<T: Scalar>(a: Seq<Seq<T>>, w: nat, d: nat, sd: nat, s: nat) -> Seq<
    Seq<T>,
> {
    diff_rows_n(diff_rows_n(a, w, d, 1), w, sd, s)
}

proof fn lemma_mul_le(a: nat, b: nat, s: nat)
    requires
        a <= b,
    ensures
        a * s <= b * s,
{
    assert(a * s <= b * s) by (nonlinear_arith)
        requires
            a <= b,
    ;
}

/// One differencing pass at periodicity `s`: `y[i + s] - y[i]`.
fn diff_pass<T: Scalar>(y: &Vec<T>, s: usize) -> (r: Vec<T>)
    requires
        s <= y.len(),
    ensures
        r@ == diff_once(y@, s as nat),
{
    let ghost want = diff_once(y@, s as nat);
    let n = y.len() - s;
    let mut out: Vec<T> = Vec::new();
    let mut i: usize = 0;
    while i < n
        invariant
            n == y.len() - s,
            i <= n,
            want == diff_once(y@, s as nat),
            out@ == want.subrange(0, i as int),
        decreases n - i,
    {
        out.push(y[i + s].minus(y[i]));
        assert(out@ =~= want.subrange(0, i + 1));
        i = i + 1;
    }
    assert(want.subrange(0, n as int) =~= want);
    out
}

/// Differences the series `y` `d` times at periodicity `s`. The passes must
/// leave at least one value.
pub fn diff1d<T: Scalar>(y: &Vec<T>, d: usize, s: usize) -> (r: Vec<T>)
    requires
        d == 0 || d * s < y.len(),
    ensures
        r@ == diff_n(y@, d as nat, s as nat),
        r.len() == y.len() - d * s,
{
    let mut cur = copy_series(y);
    let mut j: usize = 0;
    proof {
        lemma_mul_zero(0, s as nat);
        if d > 0 {
            lemma_mul_le(0, d as nat, s as nat);
        }
    }
    while j < d
        invariant
            j <= d,
            d == 0 || d * s < y.len(),
            cur@ == diff_n(y@, j as nat, s as nat),
            cur.len() == y.len() - j * s,
        decreases d - j,
    {
        proof {
            lemma_mul_pred((j + 1) as nat, s as nat);
            lemma_mul_le((j + 1) as nat, d as nat, s as nat);
        }
        cur = diff_pass(&cur, s);
        j = j + 1;
    }
    cur
}

/// `d` plain passes, then `sd` seasonal passes at periodicity `s`. The passes
/// must leave at least one value.
pub fn diff_all1d<T: Scalar>(y: &Vec<T>, d: usize, sd: usize, s: usize) -> (r: Vec<T>)
    requires
        d + sd * s < y.len(),
    ensures
        r@ == diff_all(y@, d as nat, sd as nat, s as nat),
        r.len() == y.len() - d - sd * s,
{
    assert(d * 1 == d);
    let plain = diff1d(y, d, 1);
    diff1d(&plain, sd, s)
}

/// One differencing pass over the rows of a table: row `i + s` less row `i`.
fn diff_rows<T: Scalar>(a: &Vec<Vec<T>>, width: usize, s: usize) -> (r: Vec<Vec<T>>)
    requires
        s <= a.len(),
        is_table(a@, width as nat),
    ensures
        r.len() == a.len() - s,
        is_table(r@, width as nat),
        rows(r@) == diff_rows_once(rows(a@), width as nat, s as nat),
{
    let ghost want = diff_rows_once(rows(a@), width as nat, s as nat);
    let n = a.len() - s;
    let mut out: Vec<Vec<T>> = Vec::new();
    let mut i: usize = 0;
    while i < n
        invariant
            n == a.len() - s,
            i <= n,
            out.len() == i,
            is_table(a@, width as nat),
            is_table(out@, width as nat),
            want == diff_rows_once(rows(a@), width as nat, s as nat),
            forall|k: int| 0 <= k < i ==> (#[trigger] out@[k])@ == want[k],
        decreases n - i,
    {
        let hi = &a[i + s];
        let lo = &a[i];
        let ghost wi = want[i as int];
        assert(wi == Seq::new(width as nat, |j: int| rows(a@)[i + s][j].spec_minus(rows(a@)[i as int][j])));
        let mut row: Vec<T> = Vec::new();
        let mut j: usize = 0;
        while j < width
            invariant
                j <= width,
                hi.len() == width,
                lo.len() == width,
                hi@ == rows(a@)[i + s],
                lo@ == rows(a@)[i as int],
                wi == Seq::new(width as nat, |c: int| hi@[c].spec_minus(lo@[c])),
                row@ == wi.subrange(0, j as int),
            decreases width - j,
        {
            row.push(hi[j].minus(lo[j]));
            assert(row@ =~= wi.subrange(0, j + 1));
            j = j + 1;
        }
        assert(wi.subrange(0, width as int) =~= wi);
        out.push(row);
        i = i + 1;
    }
    assert(rows(out@) =~= want);
    out
}

/// Differences the rows of a table `d` times at periodicity `s`.
fn diff2d<T: Scalar>(a: &Vec<Vec<T>>, width: usize, d: usize, s: usize) -> (r: Vec<Vec<T>>)
    requires
        d == 0 || d * s < a.len(),
        is_table(a@, width as nat),
    ensures
        r.len() == a.len() - d * s,
        is_table(r@, width as nat),
        rows(r@) == diff_rows_n(rows(a@), width as nat, d as nat, s as nat),
{
    let mut cur = copy_table(a);
    assert(rows(cur@) =~= rows(a@));
    assert(is_table(cur@, width as nat)) by {
        assert forall|i: int| 0 <= i < cur@.len() implies (#[trigger] cur@[i])@.len() == width by {
            assert(cur@[i]@ == a@[i]@);
        }
    }
    let mut j: usize = 0;
    proof {
        lemma_mul_zero(0, s as nat);
    }
    while j < d
        invariant
            j <= d,
            d == 0 || d * s < a.len(),
            cur.len() == a.len() - j * s,
            is_table(cur@, width as nat),
            rows(cur@) == diff_rows_n(rows(a@), width as nat, j as nat, s as nat),
        decreases d - j,
    {
        proof {
            lemma_mul_pred((j + 1) as nat, s as nat);
            lemma_mul_le((j + 1) as nat, d as nat, s as nat);
        }
        cur = diff_rows(&cur, width, s);
        j = j + 1;
    }
    cur
}

/// `d` plain passes, then `sd` seasonal passes at periodicity `s`, over the
/// rows of a table. The passes must leave at least one row.
pub fn diff_all2d<T: Scalar>(a: &Vec<Vec<T>>, width: usize, d: usize, sd: usize, s: usize) -> (r: Vec<
    Vec<T>,
>)
    requires
        d + sd * s < a.len(),
        is_table(a@, width as nat),
    ensures
        r.len() == a.len() - d - sd * s,
        is_table(r@, width as nat),
        rows(r@) == diff_rows_all(rows(a@), width as nat, d as nat, sd as nat, s as nat),
{
    assert(d * 1 == d);
    let plain = diff2d(a, width, d, 1);
    diff2d(&plain, width, sd, s)
}

/// Inverts one differencing pass: `y_last` is the series before differencing,
/// `y` the differenced values that follow it; each value rebuilt is `y[i]` plus
/// the value `s` places before it (periodicity zero: `y[i]` itself).
pub fn integrate<T: Scalar>(y: &Vec<T>, y_last: &Vec<T>, s: usize) -> (r: Vec<T>)
    requires
        s <= y_last.len(),
    ensures
        r@ == integrate_seq(y@, y_last@, s as nat),
        r.len() == y.len(),
{
    let ghost z = y@;
    let ghost w = y_last@;
    let mut full = copy_series(y_last);
    let mut out: Vec<T> = Vec::new();
    let mut i: usize = 0;
    assert(z.subrange(0, 0) =~= Seq::<T>::empty());
    while i < y.len()
        invariant
            i <= y.len(),
            s <= y_last.len(),
            z == y@,
            w == y_last@,
            full.len() == y_last.len() + i,
            full@ == extend(z.subrange(0, i as int), w, s as nat),
            out@ == full@.subrange(w.len() as int, w.len() + i),
        decreases y.len() - i,
    {
        let before = if s == 0 {
            y[i]
        } else {
            full[full.len() - s]
        };
        let ghost zi = z.subrange(0, i + 1);
        assert(zi.drop_last() =~= z.subrange(0, i as int));
        let v = y[i].plus(before);
        full.push(v);
        out.push(v);
        assert(out@ =~= full@.subrange(w.len() as int, w.len() + i + 1));
        i = i + 1;
    }
    assert(z.subrange(0, y.len() as int) =~= z);
    proof {
        lemma_extend_prefix(z, w, s as nat, z.len());
    }
    out
}

/// Undoes `k` passes at periodicity `s`, the highest level first, each pass
/// seeded from `base` differenced to the level below it.
fn undo_passes<T: Scalar>(y: Vec<T>, base: &Vec<T>, k: usize, s: usize) -> (r: Vec<T>)
    requires
        k == 0 || k * s < base.len(),
    ensures
        r@ == undo(y@, base@, k as nat, s as nat),
        r.len() == y.len(),
{
    let ghost z = y@;
    let n = y.len();
    let mut cur = y;
    let mut i: usize = k;
    while i > 0
        invariant
            i <= k,
            k == 0 || k * s < base.len(),
            z == y@,
            cur.len() == n,
            n == z.len(),
            undo(z, base@, k as nat, s as nat) == undo(cur@, base@, i as nat, s as nat),
        decreases i,
    {
        let j = i - 1;
        proof {
            lemma_mul_pred(i as nat, s as nat);
            lemma_mul_le(i as nat, k as nat, s as nat);
            lemma_mul_le(j as nat, k as nat, s as nat);
        }
        let ghost c = cur@;
        assert(undo(c, base@, i as nat, s as nat) == undo(
            integrate_seq(c, diff_n(base@, j as nat, s as nat), s as nat),
            base@,
            j as nat,
            s as nat,
        ));
        let seed = diff1d(base, j, s);
        cur = integrate(&cur, &seed, s);
        i = j;
    }
    cur
}

/// Inverts `diff_all1d`: seasonal passes are undone first, then plain ones,
/// each pass seeded from `y_original` differenced to the level below it.
pub fn integrate_all<T: Scalar>(y_preds: &Vec<T>, y_original: &Vec<T>, d: usize, sd: usize, s: usize) -> (r:
    Vec<T>)
    requires
        d + sd * s < y_original.len(),
    ensures
        r@ == undo_all(y_preds@, y_original@, d as nat, sd as nat, s as nat),
        r.len() == y_preds.len(),
{
    assert(d * 1 == d);
    let mut cur = copy_series(y_preds);
    if sd > 0 {
        let plain = diff1d(y_original, d, 1);
        cur = undo_passes(cur, &plain, sd, s);
    } else {
        assert(undo(cur@, diff_n(y_original@, d as nat, 1), 0, s as nat) == cur@);
    }
    undo_passes(cur, y_original, d, 1)
}

} // verus!
