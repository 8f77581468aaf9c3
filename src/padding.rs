use vstd::prelude::*;

use crate::error::Error;
use crate::field::{check_field, field_error, fits_enlarged, grid, has_shape, rows_fit, width};
use crate::sample::Sample;

verus! {

/// Mirror of position `t` into `0..n` about the first and the last sample,
/// without repeating the edge sample itself.
pub open spec fn reflect(t: int, n: int) -> int {
    if t < 0 {
        -t
    } else if t >= n {
        2 * (n - 1) - t
    } else {
        t
    }
}

/// `g` enlarged by `size - 1` rows and columns, placed at offset `size / 2`,
/// with zeros around it.
pub open spec fn zero_padded<T: Sample>(g: Seq<Seq<T>>, size: int) -> Seq<Seq<T>> {
    let h = size / 2;
    Seq::new(
        (g.len() + size - 1) as nat,
        |r: int|
            Seq::new(
                (width(g) + size - 1) as nat,
                |c: int|
                    if h <= r < h + g.len() && h <= c < h + width(g) {
                        g[r - h][c - h]
                    } else {
                        T::zero_spec()
                    },
            ),
    )
}

/// `g` enlarged for a `kh` by `kw` kernel: `(kh - 1) / 2` rows before it and
/// `kh / 2` after it, `(kw - 1) / 2` columns before it and `kw / 2` after it.
/// The border mirrors the field, corners diagonally.
pub open spec fn reflection_padded_rect<T>(g: Seq<Seq<T>>, kh: int, kw: int) -> Seq<Seq<T>> {
    let py = (kh - 1) / 2;
    let px = (kw - 1) / 2;
    Seq::new(
        (g.len() + kh - 1) as nat,
        |r: int|
            Seq::new(
                (width(g) + kw - 1) as nat,
                |c: int| g[reflect(r - py, g.len() as int)][reflect(c - px, width(g))],
            ),
    )
}

/// [`reflection_padded_rect`] for a `size` by `size` kernel.
pub open spec fn reflection_padded<T>(g: Seq<Seq<T>>, size: int) -> Seq<Seq<T>> {
    reflection_padded_rect(g, size, size)
}

/// The error of a padding request, if any: a kernel size of zero, then what is
/// wrong with the field.
pub open spec fn pad_error<T>(g: Seq<Seq<T>>, size: int) -> Option<Error> {
    if size == 0 {
        Some(Error::EmptyInput)
    } else {
        field_error(g)
    }
}

/// The error of a reflection request for a `kh` by `kw` kernel, if any: a
/// kernel side of zero, then what is wrong with the field, then a border wider
/// than the field can mirror.
pub open spec fn reflection_rect_error<T>(g: Seq<Seq<T>>, kh: int, kw: int) -> Option<Error> {
    if kh == 0 || kw == 0 {
        Some(Error::EmptyInput)
    } else if field_error(g).is_some() {
        field_error(g)
    } else if kh / 2 >= g.len() || kw / 2 >= width(g) {
        Some(Error::ShapeMismatch)
    } else {
        None
    }
}

/// [`reflection_rect_error`] for a `size` by `size` kernel.
pub open spec fn reflection_error<T>(g: Seq<Seq<T>>, size: int) -> Option<Error> {
    reflection_rect_error(g, size, size)
}

/// Pads the field with zeros for a `size` by `size` kernel, so that sliding the
/// kernel over the result gives an output of the field's own shape.
pub fn zero_pad<T: Sample>(input: &Vec<Vec<T>>, size: usize) -> (r: Result<Vec<Vec<T>>, Error>)
    requires
        rows_fit(input@, size as int),
    ensures
        match pad_error(grid(input@), size as int) {
            Some(e) => r == Err::<Vec<Vec<T>>, Error>(e),
            None => r.is_ok() && grid(r.unwrap()@) == zero_padded(grid(input@), size as int),
        },
{
    if size == 0 {
        return Err(Error::EmptyInput);
    }
    if let Some(e) = check_field(input) {
        return Err(e);
    }
    let ghost g = grid(input@);
    let rows = input.len();
    let cols = input[0].len();
    assert(input@[0]@.len() + size <= usize::MAX);
    let h = size / 2;
    let ghost spec = zero_padded(g, size as int);
    let mut out: Vec<Vec<T>> = Vec::new();
    let mut i: usize = 0;
    while i < rows + size - 1
        invariant
            g == grid(input@),
            rows == g.len(),
            cols == width(g),
            forall|k: int| 0 <= k < rows ==> #[trigger] g[k].len() == cols,
            rows_fit(input@, size as int),
            cols + size <= usize::MAX,
            size > 0,
            h == size / 2,
            spec == zero_padded(g, size as int),
            out@.len() == i,
            i <= rows + size - 1,
            forall|k: int| 0 <= k < i ==> #[trigger] out@[k]@ == spec[k],
        decreases rows + size - 1 - i,
    {
        let mut row: Vec<T> = Vec::new();
        let mut j: usize = 0;
        while j < cols + size - 1
            invariant
                g == grid(input@),
                rows == g.len(),
                cols == width(g),
                forall|k: int| 0 <= k < rows ==> #[trigger] g[k].len() == cols,
                rows_fit(input@, size as int),
                cols + size <= usize::MAX,
                size > 0,
                h == size / 2,
                spec == zero_padded(g, size as int),
                i < rows + size - 1,
                row@.len() == j,
                j <= cols + size - 1,
                forall|k: int| 0 <= k < j ==> #[trigger] row@[k] == spec[i as int][k],
            decreases cols + size - 1 - j,
        {
            if h <= i && i < h + rows && h <= j && j < h + cols {
                assert(input@[i - h]@ == g[i - h]);
                row.push(input[i - h][j - h]);
            } else {
                row.push(T::zero());
            }
            j += 1;
        }
        assert(row@ =~= spec[i as int]);
        out.push(row);
        i += 1;
    }
    assert(grid(out@) =~= spec);
    Ok(out)
}

/// `reflect(p - pad, n)` for a position `p` of a padded axis.
fn reflect_index(p: usize, pad: usize, n: usize) -> (r: usize)
    requires
        pad < n,
        p <= 2 * (n - 1) + pad,
    ensures
        r == reflect(p - pad, n as int),
        0 <= r < n,
{
    if p < pad {
        pad - p
    } else if p - pad < n {
        p - pad
    } else {
        (n - 1) - (p - pad - (n - 1))
    }
}

/// Pads the field by mirroring it for a `size` by `size` kernel: see
/// [`reflection_pad_rect`].
pub fn reflection_pad<T: Copy>(input: &Vec<Vec<T>>, size: usize) -> (r: Result<
    Vec<Vec<T>>,
    Error,
>)
    requires
        rows_fit(input@, size as int),
    ensures
        match reflection_error(grid(input@), size as int) {
            Some(e) => r == Err::<Vec<Vec<T>>, Error>(e),
            None => r.is_ok() && grid(r.unwrap()@) == reflection_padded(
                grid(input@),
                size as int,
            ),
        },
{
    reflection_pad_rect(input, size, size)
}

/// Pads the field by mirroring it for a `kh` by `kw` kernel: rows are mirrored
/// above and below, then columns to the left and right, so that the corners
/// take the diagonal mirror. The edge sample is not repeated.
pub fn reflection_pad_rect<T: Copy>(input: &Vec<Vec<T>>, kh: usize, kw: usize) -> (r: Result<
    Vec<Vec<T>>,
    Error,
>)
    requires
        fits_enlarged(input@, kh as int, kw as int),
    ensures
        match reflection_rect_error(grid(input@), kh as int, kw as int) {
            Some(e) => r == Err::<Vec<Vec<T>>, Error>(e),
            None => r.is_ok() && grid(r.unwrap()@) == reflection_padded_rect(
                grid(input@),
                kh as int,
                kw as int,
            ),
        },
{
    if kh == 0 || kw == 0 {
        return Err(Error::EmptyInput);
    }
    if let Some(e) = check_field(input) {
        return Err(e);
    }
    let ghost g = grid(input@);
    let rows = input.len();
    let cols = input[0].len();
    assert(input@[0]@.len() + kw <= usize::MAX);
    if kh / 2 >= rows || kw / 2 >= cols {
        return Err(Error::ShapeMismatch);
    }
    let py = (kh - 1) / 2;
    let px = (kw - 1) / 2;
    let ghost spec = reflection_padded_rect(g, kh as int, kw as int);
    let mut out: Vec<Vec<T>> = Vec::new();
    let mut i: usize = 0;
    while i < rows + kh - 1
        invariant
            g == grid(input@),
            rows == g.len(),
            cols == width(g),
            forall|k: int| 0 <= k < rows ==> #[trigger] g[k].len() == cols,
            rows + kh <= usize::MAX,
            cols + kw <= usize::MAX,
            kh > 0,
            kw > 0,
            kh / 2 < rows,
            kw / 2 < cols,
            py == (kh - 1) / 2,
            px == (kw - 1) / 2,
            spec == reflection_padded_rect(g, kh as int, kw as int),
            out@.len() == i,
            i <= rows + kh - 1,
            forall|k: int| 0 <= k < i ==> #[trigger] out@[k]@ == spec[k],
        decreases rows + kh - 1 - i,
    {
        // the mirrored row first, then the mirrored column within it
        let src = &input[reflect_index(i, py, rows)];
        assert(src@ == g[reflect(i - py, rows as int)]);
        let mut row: Vec<T> = Vec::new();
        let mut j: usize = 0;
        while j < cols + kw - 1
            invariant
                g == grid(input@),
                rows == g.len(),
                cols == width(g),
                cols + kw <= usize::MAX,
                kw > 0,
                kw / 2 < cols,
                py == (kh - 1) / 2,
                px == (kw - 1) / 2,
                spec == reflection_padded_rect(g, kh as int, kw as int),
                i < rows + kh - 1,
                src@ == g[reflect(i - py, rows as int)],
                src@.len() == cols,
                row@.len() == j,
                j <= cols + kw - 1,
                forall|k: int| 0 <= k < j ==> #[trigger] row@[k] == spec[i as int][k],
            decreases cols + kw - 1 - j,
        {
            row.push(src[reflect_index(j, px, cols)]);
            j += 1;
        }
        assert(row@ =~= spec[i as int]);
        out.push(row);
        i += 1;
    }
    assert(grid(out@) =~= spec);
    Ok(out)
}

} // verus!

verus! {

/// A reflection padding for a kernel of size `size` has `size - 1` more rows and
/// columns than the field, and the block at `((size - 1) / 2, (size - 1) / 2)`
/// of the field's own shape is the field.
pub proof fn lemma_reflection_pad_interior<T>(g: Seq<Seq<T>>, size: nat)
    requires
        reflection_error(g, size as int).is_none(),
    ensures
        has_shape(
            reflection_padded(g, size as int),
            g.len() + size - 1,
            width(g) + size - 1,
        ),
        forall|i: int, j: int|
            0 <= i < g.len() && 0 <= j < width(g) ==> #[trigger] reflection_padded(g, size as int)[i + (
            size - 1) / 2][j + (size - 1) / 2] == g[i][j],
{
    let p = reflection_padded(g, size as int);
    assert(size >= 1);
    assert forall|i: int, j: int| 0 <= i < g.len() && 0 <= j < width(g) implies #[trigger] p[i
        + (size - 1) / 2][j + (size - 1) / 2] == g[i][j] by {
        assert(g[i].len() == g[0].len());
    }
}

} // verus!
