use vstd::prelude::*;

use rand::Rng;

use crate::error::Error;
use crate::field::{flatten, grid, has_shape, is_rectangular, lemma_flatten_len, rows_fit, width};
use crate::padding::{pad_error, zero_pad, zero_padded};
use crate::sample::Sample;

verus! {

/// The `size` by `size` block of `p` at `(i, j)`, row by row.
pub open spec fn window<T>(p: Seq<Seq<T>>, i: int, j: int, size: int) -> Seq<T> {
    Seq::new(size as nat, |a: int| p[i + a].subrange(j, j + size)).flatten()
}

/// For each sample of the field, the block of its zero padding that a `size` by
/// `size` kernel centred there covers.
pub open spec fn pool_window<T: Sample>(g: Seq<Seq<T>>, i: int, j: int, size: int) -> Seq<T> {
    window(zero_padded(g, size), i, j, size)
}

proof fn lemma_window_len<T: Sample>(g: Seq<Seq<T>>, i: int, j: int, size: int)
    requires
        has_shape(g, g.len() as int, width(g)),
        0 <= i < g.len(),
        0 <= j < width(g),
        size >= 1,
    ensures
        pool_window(g, i, j, size).len() == size * size,
        size * size >= 1,
{
    let p = zero_padded(g, size);
    let rows = Seq::new(size as nat, |a: int| p[i + a].subrange(j, j + size));
    assert forall|a: int| 0 <= a < rows.len() implies #[trigger] rows[a].len() == size by {}
    lemma_flatten_len(rows, size);
    assert(size * size >= 1) by (nonlinear_arith)
        requires
            size >= 1,
    ;
}

/// Relies on rand's `thread_rng` and `Rng::gen_range`: a number drawn from `0..len`.
#[verifier::external_body]
fn random_index(len: usize) -> (r: usize)
    requires
        len > 0,
    ensures
        r < len,
{
    rand::thread_rng().gen_range(0..len)
}

/// The windows of a pooling with a `size` by `size` window: one per sample of
/// the field, over its zero padding, each flattened row by row.
pub fn pool_windows<T: Sample>(input: &Vec<Vec<T>>, size: usize) -> (r: Result<
    Vec<Vec<Vec<T>>>,
    Error,
>)
    requires
        rows_fit(input@, size as int),
    ensures
        match pad_error(grid(input@), size as int) {
            Some(e) => r == Err::<Vec<Vec<Vec<T>>>, Error>(e),
            None => r.is_ok() && r.unwrap()@.len() == input@.len() && forall|i: int|
                0 <= i < input@.len() ==> {
                    &&& (#[trigger] r.unwrap()@[i])@.len() == width(grid(input@))
                    &&& forall|j: int|
                        0 <= j < width(grid(input@)) ==> (#[trigger] r.unwrap()@[i]@[j])@
                            == pool_window(grid(input@), i, j, size as int)
                },
        },
{
    let padded = match zero_pad(input, size) {
        Ok(p) => p,
        Err(e) => return Err(e),
    };
    let ghost g = grid(input@);
    let ghost p = zero_padded(g, size as int);
    let rows = input.len();
    let cols = input[0].len();
    assert(g[0] == input@[0]@);
    assert(forall|k: int| 0 <= k < rows ==> #[trigger] g[k].len() == cols);
    assert(grid(padded@) == p);
    assert(g.len() == rows);
    assert(grid(padded@).len() == padded@.len());
    assert(padded@.len() == rows + size - 1);
    let mut out: Vec<Vec<Vec<T>>> = Vec::new();
    let mut i: usize = 0;
    while i < rows
        invariant
            g == grid(input@),
            p == zero_padded(g, size as int),
            grid(padded@) == p,
            padded@.len() == rows + size - 1,
            rows == g.len(),
            cols == width(g),
            size >= 1,
            rows + size <= usize::MAX,
            cols + size <= usize::MAX,
            forall|k: int| 0 <= k < rows ==> #[trigger] g[k].len() == cols,
            i <= rows,
            out@.len() == i,
            forall|a: int|
                0 <= a < i ==> {
                    &&& (#[trigger] out@[a])@.len() == cols
                    &&& forall|b: int|
                        0 <= b < cols ==> (#[trigger] out@[a]@[b])@ == window(p, a, b, size as int)
                },
        decreases rows - i,
    {
        let mut row: Vec<Vec<T>> = Vec::new();
        let mut j: usize = 0;
        while j < cols
            invariant
                g == grid(input@),
                p == zero_padded(g, size as int),
                grid(padded@) == p,
                padded@.len() == rows + size - 1,
                rows == g.len(),
                cols == width(g),
                size >= 1,
                rows + size <= usize::MAX,
                cols + size <= usize::MAX,
                i < rows,
                j <= cols,
                row@.len() == j,
                forall|b: int| 0 <= b < j ==> #[trigger] row@[b]@ == window(p, i as int, b, size as int),
            decreases cols - j,
        {
            let mut block: Vec<Vec<T>> = Vec::new();
            let mut a: usize = 0;
            while a < size
                invariant
                    p == zero_padded(g, size as int),
                    grid(padded@) == p,
                    padded@.len() == rows + size - 1,
                    rows == g.len(),
                    cols == width(g),
                    rows + size <= usize::MAX,
                    cols + size <= usize::MAX,
                    i < rows,
                    j < cols,
                    a <= size,
                    grid(block@) =~= Seq::new(a as nat, |t: int| p[i + t].subrange(j as int, j + size)),
                decreases size - a,
            {
                assert(grid(padded@)[i + a] == padded@[i + a]@);
                let src = &padded[i + a];
                let mut part: Vec<T> = Vec::new();
                let mut t: usize = 0;
                while t < size
                    invariant
                        src@ == p[i + a],
                        src@.len() == cols + size - 1,
                        j < cols,
                        cols + size <= usize::MAX,
                        t <= size,
                        part@ =~= src@.subrange(j as int, j + t),
                    decreases size - t,
                {
                    part.push(src[j + t]);
                    t += 1;
                }
                assert(part@ =~= p[i + a].subrange(j as int, j + size));
                let ghost before = grid(block@);
                block.push(part);
                assert(grid(block@) =~= before.push(p[i + a].subrange(j as int, j + size)));
                a += 1;
            }
            let w = flatten(&block);
            row.push(w);
            j += 1;
        }
        out.push(row);
        i += 1;
    }
    Ok(out)
}

/// The sample of each window at the position drawn for it:
/// `r[i][j] == windows[i][j][draws[i][j]]`.
pub fn pick_windows<T: Copy>(windows: &Vec<Vec<Vec<T>>>, draws: &Vec<Vec<usize>>) -> (r: Vec<
    Vec<T>,
>)
    requires
        draws@.len() == windows@.len(),
        forall|i: int|
            0 <= i < windows@.len() ==> {
                &&& (#[trigger] draws@[i])@.len() == windows@[i]@.len()
                &&& forall|j: int|
                    0 <= j < windows@[i]@.len() ==> (#[trigger] draws@[i]@[j]) < windows@[i]@[j]@.len()
            },
    ensures
        r@.len() == windows@.len(),
        forall|i: int|
            0 <= i < windows@.len() ==> {
                &&& (#[trigger] r@[i])@.len() == windows@[i]@.len()
                &&& forall|j: int|
                    0 <= j < windows@[i]@.len() ==> (#[trigger] r@[i]@[j])
                        == windows@[i]@[j]@[draws@[i]@[j] as int]
            },
{
    let mut out: Vec<Vec<T>> = Vec::new();
    let mut i: usize = 0;
    while i < windows.len()
        invariant
            draws@.len() == windows@.len(),
            forall|a: int|
                0 <= a < windows@.len() ==> {
                    &&& (#[trigger] draws@[a])@.len() == windows@[a]@.len()
                    &&& forall|b: int|
                        0 <= b < windows@[a]@.len() ==> (#[trigger] draws@[a]@[b])
                            < windows@[a]@[b]@.len()
                },
            i <= windows@.len(),
            out@.len() == i,
            forall|a: int|
                0 <= a < i ==> {
                    &&& (#[trigger] out@[a])@.len() == windows@[a]@.len()
                    &&& forall|b: int|
                        0 <= b < windows@[a]@.len() ==> (#[trigger] out@[a]@[b])
                            == windows@[a]@[b]@[draws@[a]@[b] as int]
                },
        decreases windows@.len() - i,
    {
        let ws = &windows[i];
        let ds = &draws[i];
        let mut row: Vec<T> = Vec::new();
        let mut j: usize = 0;
        while j < ws.len()
            invariant
                ws@ == windows@[i as int]@,
                ds@ == draws@[i as int]@,
                ds@.len() == ws@.len(),
                forall|b: int| 0 <= b < ws@.len() ==> (#[trigger] ds@[b]) < ws@[b]@.len(),
                j <= ws@.len(),
                row@.len() == j,
                forall|b: int| 0 <= b < j ==> (#[trigger] row@[b]) == ws@[b]@[ds@[b] as int],
            decreases ws@.len() - j,
        {
            row.push(ws[j][ds[j]]);
            j += 1;
        }
        out.push(row);
        i += 1;
    }
    out
}

/// Stochastic pooling: each output sample is one sample of its window
/// (see [`pool_windows`]), at a position drawn at random and picked by
/// [`pick_windows`].
pub fn stochastic_pooling<T: Sample>(input: &Vec<Vec<T>>, size: usize) -> (r: Result<
    Vec<Vec<T>>,
    Error,
>)
    requires
        rows_fit(input@, size as int),
    ensures
        match pad_error(grid(input@), size as int) {
            Some(e) => r == Err::<Vec<Vec<T>>, Error>(e),
            None => r.is_ok() && has_shape(
                grid(r.unwrap()@),
                input@.len() as int,
                width(grid(input@)),
            ) && forall|i: int, j: int|
                0 <= i < input@.len() && 0 <= j < width(grid(input@)) ==> pool_window(
                    grid(input@),
                    i,
                    j,
                    size as int,
                ).contains(grid(r.unwrap()@)[i][j]),
        },
{
    let windows = match pool_windows(input, size) {
        Ok(w) => w,
        Err(e) => return Err(e),
    };
    let ghost g = grid(input@);
    let rows = input.len();
    let cols = input[0].len();
    assert(g[0] == input@[0]@);
    assert(g.len() == rows);
    assert(is_rectangular(g));
    assert(has_shape(g, rows as int, cols as int));
    let mut draws: Vec<Vec<usize>> = Vec::new();
    let mut i: usize = 0;
    while i < rows
        invariant
            has_shape(g, rows as int, cols as int),
            g == grid(input@),
            rows == g.len(),
            cols == width(g),
            size >= 1,
            windows@.len() == rows,
            forall|a: int|
                0 <= a < rows ==> {
                    &&& (#[trigger] windows@[a])@.len() == cols
                    &&& forall|b: int|
                        0 <= b < cols ==> (#[trigger] windows@[a]@[b])@ == pool_window(
                            g,
                            a,
                            b,
                            size as int,
                        )
                },
            i <= rows,
            draws@.len() == i,
            forall|a: int|
                0 <= a < i ==> {
                    &&& (#[trigger] draws@[a])@.len() == cols
                    &&& forall|b: int|
                        0 <= b < cols ==> (#[trigger] draws@[a]@[b]) < windows@[a]@[b]@.len()
                },
        decreases rows - i,
    {
        let mut row: Vec<usize> = Vec::new();
        let mut j: usize = 0;
        while j < cols
            invariant
                has_shape(g, rows as int, cols as int),
                rows == g.len(),
                cols == width(g),
                size >= 1,
                windows@.len() == rows,
                i < rows,
                windows@[i as int]@.len() == cols,
                forall|b: int|
                    0 <= b < cols ==> (#[trigger] windows@[i as int]@[b])@ == pool_window(
                        g,
                        i as int,
                        b,
                        size as int,
                    ),
                j <= cols,
                row@.len() == j,
                forall|b: int| 0 <= b < j ==> (#[trigger] row@[b]) < windows@[i as int]@[b]@.len(),
            decreases cols - j,
        {
            proof {
                lemma_window_len(g, i as int, j as int, size as int);
            }
            row.push(random_index(windows[i][j].len()));
            j += 1;
        }
        draws.push(row);
        i += 1;
    }
    let out = pick_windows(&windows, &draws);
    assert forall|a: int, b: int| 0 <= a < rows && 0 <= b < cols implies pool_window(
        g,
        a,
        b,
        size as int,
    ).contains(#[trigger] grid(out@)[a][b]) by {
        assert(grid(out@)[a] == out@[a]@);
        assert(out@[a]@[b] == windows@[a]@[b]@[draws@[a]@[b] as int]);
    }
    assert forall|a: int| 0 <= a < rows implies #[trigger] grid(out@)[a].len() == cols by {
        assert(grid(out@)[a] == out@[a]@);
    }
    Ok(out)
}

} // verus!
