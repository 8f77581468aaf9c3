use vstd::prelude::*;

use crate::error::Error;

verus! {

/// The rows of a nested vector, each as a sequence.
pub open spec fn grid<T>(v: Seq<Vec<T>>) -> Seq<Seq<T>> {
    v.map_values(|r: Vec<T>| r@)
}

/// Number of columns of a field: the length of its first row.
pub open spec fn width<T>(g: Seq<Seq<T>>) -> int {
    g[0].len() as int
}

/// Every row has the same length as the first.
pub open spec fn is_rectangular<T>(g: Seq<Seq<T>>) -> bool {
    forall|i: int| 0 <= i < g.len() ==> #[trigger] g[i].len() == g[0].len()
}

/// A field of `r` rows of `c` samples each.
pub open spec fn has_shape<T>(g: Seq<Seq<T>>, r: int, c: int) -> bool {
    g.len() == r && forall|i: int| 0 <= i < r ==> #[trigger] g[i].len() == c
}

/// What is wrong with a field, if anything: no row or an empty first row, then
/// ragged rows.
pub open spec fn field_error<T>(g: Seq<Seq<T>>) -> Option<Error> {
    if g.len() == 0 || g[0].len() == 0 {
        Some(Error::EmptyInput)
    } else if !is_rectangular(g) {
        Some(Error::ShapeMismatch)
    } else {
        None
    }
}

/// Every row is short enough that `extra` more samples still fit a `usize`.
pub open spec fn rows_fit<T>(v: Seq<Vec<T>>, extra: int) -> bool {
    fits_enlarged(v, extra, extra)
}

/// `extra_rows` more rows and `extra_cols` more samples in every row still fit
/// a `usize`.
pub open spec fn fits_enlarged<T>(v: Seq<Vec<T>>, extra_rows: int, extra_cols: int) -> bool {
    v.len() + extra_rows <= usize::MAX && forall|i: int|
        0 <= i < v.len() ==> #[trigger] v[i]@.len() + extra_cols <= usize::MAX
}

/// The length of the first row of a nested vector, zero when it has none.
pub open spec fn first_width<T>(v: Seq<Vec<T>>) -> int {
    if v.len() == 0 {
        0
    } else {
        v[0]@.len() as int
    }
}

/// Checks a field: `Some` of its error, `None` when it is non-empty and rectangular.
pub fn check_field<T>(v: &Vec<Vec<T>>) -> (r: Option<Error>)
    ensures
        r == field_error(grid(v@)),
{
    if v.len() == 0 || v[0].len() == 0 {
        return Some(Error::EmptyInput);
    }
    let c = v[0].len();
    assert(grid(v@).len() == v@.len());
    assert(grid(v@)[0] == v@[0]@);
    let mut i: usize = 0;
    while i < v.len()
        invariant
            0 <= i <= v.len(),
            c == v@[0]@.len(),
            c > 0,
            grid(v@).len() == v@.len(),
            grid(v@)[0] == v@[0]@,
            forall|k: int| 0 <= k < i ==> #[trigger] v@[k]@.len() == c,
        decreases v.len() - i,
    {
        if v[i].len() != c {
            assert(grid(v@)[i as int] == v@[i as int]@);
            assert(grid(v@)[i as int].len() != grid(v@)[0].len());
            return Some(Error::ShapeMismatch);
        }
        i += 1;
    }
    assert forall|k: int| 0 <= k < grid(v@).len() implies #[trigger] grid(v@)[k].len() == grid(v@)[0].len() by {
        assert(grid(v@)[k] == v@[k]@);
    }
    None
}

} // verus!

verus! {

/// The first `n` samples of `s`, `cols` to a row, row by row.
pub open spec fn reshaped<T>(s: Seq<T>, rows: int, cols: int) -> Seq<Seq<T>> {
    Seq::new(rows as nat, |y: int| Seq::new(cols as nat, |x: int| s[y * cols + x]))
}

/// A field of `c` columns flattened row by row has `c` samples per row.
pub proof fn lemma_flatten_len<T>(g: Seq<Seq<T>>, c: int)
    requires
        forall|i: int| 0 <= i < g.len() ==> #[trigger] g[i].len() == c,
    ensures
        g.flatten().len() == g.len() * c,
    decreases g.len(),
{
    if g.len() > 0 {
        let rest = g.drop_first();
        assert forall|i: int| 0 <= i < rest.len() implies #[trigger] rest[i].len() == c by {
            assert(rest[i] == g[i + 1]);
        }
        lemma_flatten_len(rest, c);
        assert(g.first().len() == c);
        let r = g.len();
        assert(c + (r - 1) * c == r * c) by (nonlinear_arith);
    }
}

/// The rows of `v` one after another.
pub fn flatten<T: Copy>(v: &Vec<Vec<T>>) -> (r: Vec<T>)
    ensures
        r@ == grid(v@).flatten(),
{
    let ghost g = grid(v@);
    let mut out: Vec<T> = Vec::new();
    let mut i: usize = 0;
    while i < v.len()
        invariant
            g == grid(v@),
            i <= v@.len(),
            out@ == g.subrange(0, i as int).flatten(),
        decreases v@.len() - i,
    {
        let row = &v[i];
        assert(row@ == g[i as int]);
        let ghost base = out@;
        let mut j: usize = 0;
        while j < row.len()
            invariant
                j <= row@.len(),
                out@ =~= base + row@.subrange(0, j as int),
            decreases row@.len() - j,
        {
            out.push(row[j]);
            j += 1;
        }
        proof {
            assert(g.subrange(0, i + 1) =~= g.subrange(0, i as int).push(g[i as int]));
            g.subrange(0, i as int).lemma_flatten_push(g[i as int]);
            assert(out@ =~= base + row@);
        }
        i += 1;
    }
    assert(g.subrange(0, v@.len() as int) =~= g);
    out
}

/// The first `rows * cols` samples of `s` as a field of `rows` rows of `cols`.
pub fn reshape<T: Copy>(s: &Vec<T>, rows: usize, cols: usize) -> (r: Vec<Vec<T>>)
    requires
        rows * cols <= s@.len(),
    ensures
        grid(r@) == reshaped(s@, rows as int, cols as int),
{
    let ghost spec = reshaped(s@, rows as int, cols as int);
    let n = s.len();
    let mut out: Vec<Vec<T>> = Vec::new();
    let mut y: usize = 0;
    while y < rows
        invariant
            rows * cols <= s@.len(),
            n == s@.len(),
            spec == reshaped(s@, rows as int, cols as int),
            y <= rows,
            out@.len() == y,
            forall|a: int| 0 <= a < y ==> #[trigger] out@[a]@ == spec[a],
        decreases rows - y,
    {
        let mut row: Vec<T> = Vec::new();
        let mut x: usize = 0;
        while x < cols
            invariant
                rows * cols <= s@.len(),
                n == s@.len(),
                spec == reshaped(s@, rows as int, cols as int),
                y < rows,
                x <= cols,
                row@ =~= spec[y as int].subrange(0, x as int),
            decreases cols - x,
        {
            assert(y * cols + x < rows * cols && y * cols <= y * cols + x) by (nonlinear_arith)
                requires
                    y < rows,
                    x < cols,
            ;
            row.push(s[y * cols + x]);
            x += 1;
        }
        assert(row@ =~= spec[y as int]);
        out.push(row);
        y += 1;
    }
    assert(grid(out@) =~= spec);
    out
}

} // verus!
