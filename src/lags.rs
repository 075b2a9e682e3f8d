use vstd::prelude::*;

verus! {

/// Every row of `m` has `cols` entries.
pub open spec fn is_table<T>(m: Seq<Vec<T>>, cols: nat) -> bool {
    forall|i: int| 0 <= i < m.len() ==> (#[trigger] m[i])@.len() == cols
}

/// The entry of the lag table of `y` (`p` lags at periodicity `s`) at row `i`
/// and column `j`: the value `s * (j + 1)` places before `y[i + p * s]`, so
/// that columns run from the nearest lag to the most distant.
pub open spec fn lag_entry<T>(y: Seq<T>, p: nat, s: nat, i: int, j: int) -> T {
    y[i + s * (p - 1 - j)]
}

/// In the columns of `row` from `start` up to `end`, the column at offset `k`
/// from `start` holds the value of `v` that lies `(k + 1) * s` places before
/// position `i`, where there is one; where there is none it holds what `row0`
/// holds.
pub open spec fn filled<T>(row: Seq<T>, row0: Seq<T>, v: Seq<T>, i: int, start: int, end: int, s: int) -> bool {
    forall|c: int|
        start <= c < end ==> #[trigger] row[c] == if (c - start + 1) * s <= i {
            v[i - (c - start + 1) * s]
        } else {
            row0[c]
        }
}

proof fn lemma_lag_index(p: nat, s: nat, j: nat)
    requires
        j < p,
    ensures
        s * (p - 1 - j) + s <= p * s,
        0 <= s * (p - 1 - j),
{
    assert(s * (p - 1 - j) + s <= p * s) by (nonlinear_arith)
        requires
            j < p,
    ;
    assert(0 <= s * (p - 1 - j)) by (nonlinear_arith)
        requires
            j < p,
    ;
}

/// The table of `p` lags of `y` at periodicity `s`: one row for each value
/// of `y` past the first `p * s`, and in row `i`, column `j` holds the value
/// `s * (j + 1)` places before `y[i + p * s]`.
pub fn create_lags<T: Copy>(y: &Vec<T>, p: usize, s: usize) -> (r: Vec<Vec<T>>)
    requires
        p * s <= y.len(),
    ensures
        r.len() == y.len() - p * s,
        is_table(r@, p as nat),
        forall|i: int, j: int|
            0 <= i < r.len() && 0 <= j < p ==> (#[trigger] r@[i]@[j]) == lag_entry(
                y@,
                p as nat,
                s as nat,
                i,
                j,
            ),
{
    let len = y.len() - p * s;
    let mut out: Vec<Vec<T>> = Vec::new();
    let mut i: usize = 0;
    while i < len
        invariant
            len == y.len() - p * s,
            p * s <= y.len(),
            i <= len,
            out.len() == i,
            is_table(out@, p as nat),
            forall|a: int, j: int|
                0 <= a < i && 0 <= j < p ==> (#[trigger] out@[a]@[j]) == lag_entry(
                    y@,
                    p as nat,
                    s as nat,
                    a,
                    j,
                ),
        decreases len - i,
    {
        let mut row: Vec<T> = Vec::new();
        let mut j: usize = 0;
        while j < p
            invariant
                len == y.len() - p * s,
                p * s <= y.len(),
                i < len,
                j <= p,
                row.len() == j,
                forall|b: int| 0 <= b < j ==> row@[b] == lag_entry(y@, p as nat, s as nat, i as int, b),
            decreases p - j,
        {
            proof {
                lemma_lag_index(p as nat, s as nat, j as nat);
            }
            let k = i + s * (p - 1 - j);
            row.push(y[k]);
            j = j + 1;
        }
        out.push(row);
        i = i + 1;
    }
    out
}

/// Fills row `index` of `x`, columns `start_col` to `end_col`: the column at
/// offset `k` from `start_col` takes the value `(k + 1) * s` places before
/// `index` in `values`, and stays as it was where no such value exists.
pub fn move_up<T: Copy>(
    index: usize,
    x: &mut Vec<Vec<T>>,
    values: &Vec<T>,
    start_col: usize,
    end_col: usize,
    s: usize,
)
    requires
        index < old(x).len(),
        start_col <= end_col <= old(x)@[index as int]@.len(),
        start_col == end_col || index < values.len() + s,
    ensures
        final(x).len() == old(x).len(),
        forall|r: int| 0 <= r < old(x).len() && r != index ==> final(x)@[r] == old(x)@[r],
        final(x)@[index as int]@.len() == old(x)@[index as int]@.len(),
        filled(
            final(x)@[index as int]@,
            old(x)@[index as int]@,
            values@,
            index as int,
            start_col as int,
            end_col as int,
            s as int,
        ),
        forall|c: int|
            0 <= c < old(x)@[index as int]@.len() && !(start_col <= c < end_col) ==> (
            #[trigger] final(x)@[index as int]@[c]) == old(x)@[index as int]@[c],
{
    let ghost x0 = x@;
    let mut col: usize = start_col;
    while col < end_col
        invariant
            start_col <= col <= end_col,
            start_col == end_col || index < values.len() + s,
            x.len() == x0.len(),
            index < x0.len(),
            end_col <= x0[index as int]@.len(),
            forall|r: int| 0 <= r < x0.len() && r != index ==> x@[r] == x0[r],
            x@[index as int]@.len() == x0[index as int]@.len(),
            forall|c: int|
                0 <= c < x0[index as int]@.len() ==> (#[trigger] x@[index as int]@[c]) == if start_col
                    <= c < col && (c - start_col + 1) * s <= index {
                    values@[index - (c - start_col + 1) * s]
                } else {
                    x0[index as int]@[c]
                },
        decreases end_col - col,
    {
        let k = col - start_col + 1;
        match k.checked_mul(s) {
            Some(offset) => {
                if offset <= index {
                    assert(k * s >= s) by (nonlinear_arith)
                        requires
                            k >= 1,
                    ;
                    x[index][col] = values[index - offset];
                }
            },
            None => {},
        }
        col = col + 1;
    }
}

/// A copy of the series `y`.
pub fn copy_series<T: Copy>(y: &Vec<T>) -> (r: Vec<T>)
    ensures
        r@ == y@,
{
    let mut out: Vec<T> = Vec::new();
    let mut i: usize = 0;
    while i < y.len()
        invariant
            i <= y.len(),
            out@ == y@.subrange(0, i as int),
        decreases y.len() - i,
    {
        out.push(y[i]);
        assert(out@ =~= y@.subrange(0, i + 1));
        i = i + 1;
    }
    assert(y@.subrange(0, y.len() as int) =~= y@);
    out
}

/// A copy of the table `m`, row by row.
pub fn copy_table<T: Copy>(m: &Vec<Vec<T>>) -> (r: Vec<Vec<T>>)
    ensures
        r.len() == m.len(),
        forall|i: int| 0 <= i < m.len() ==> (#[trigger] r@[i])@ == m@[i]@,
{
    let mut out: Vec<Vec<T>> = Vec::new();
    let mut i: usize = 0;
    while i < m.len()
        invariant
            i <= m.len(),
            out.len() == i,
            forall|a: int| 0 <= a < i ==> (#[trigger] out@[a])@ == m@[a]@,
        decreases m.len() - i,
    {
        out.push(copy_series(&m[i]));
        i = i + 1;
    }
    out
}

/// A table of `rows` rows without columns.
pub fn empty_rows<T>(rows: usize) -> (r: Vec<Vec<T>>)
    ensures
        r.len() == rows,
        is_table(r@, 0),
{
    let mut out: Vec<Vec<T>> = Vec::new();
    let mut i: usize = 0;
    while i < rows
        invariant
            i <= rows,
            out.len() == i,
            is_table(out@, 0),
        decreases rows - i,
    {
        out.push(Vec::new());
        i = i + 1;
    }
    out
}

/// Whether every row of `m` has `cols` entries.
pub fn has_width<T>(m: &Vec<Vec<T>>, cols: usize) -> (r: bool)
    ensures
        r == is_table(m@, cols as nat),
{
    let mut i: usize = 0;
    while i < m.len()
        invariant
            i <= m.len(),
            forall|a: int| 0 <= a < i ==> (#[trigger] m@[a])@.len() == cols,
        decreases m.len() - i,
    {
        if m[i].len() != cols {
            return false;
        }
        i = i + 1;
    }
    true
}

/// Appends the values of `src` to `row`.
pub fn push_all<T: Copy>(row: &mut Vec<T>, src: &Vec<T>)
    ensures
        final(row)@ == old(row)@ + src@,
{
    let ghost start = row@;
    let mut i: usize = 0;
    while i < src.len()
        invariant
            i <= src.len(),
            row@ == start + src@.subrange(0, i as int),
        decreases src.len() - i,
    {
        row.push(src[i]);
        assert(row@ =~= start + src@.subrange(0, i + 1));
        i = i + 1;
    }
    assert(src@.subrange(0, src.len() as int) =~= src@);
}

/// Appends `n` copies of `v` to `row`.
pub fn push_n<T: Copy>(row: &mut Vec<T>, v: T, n: usize)
    ensures
        final(row)@ == old(row)@ + Seq::new(n as nat, |_i: int| v),
{
    let ghost start = row@;
    let mut i: usize = 0;
    while i < n
        invariant
            i <= n,
            row@ == start + Seq::new(i as nat, |_i: int| v),
        decreases n - i,
    {
        row.push(v);
        assert(row@ =~= start + Seq::new((i + 1) as nat, |_i: int| v));
        i = i + 1;
    }
}

} // verus!
