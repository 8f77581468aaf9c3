use vstd::prelude::*;

use crate::error::Error;
use crate::dft::{fft, ifft, is_pow2, lemma_next_pow2, lifted, next_pow2, norms, radix2, Spectral};
use crate::field::{
    check_field,
    field_error,
    flatten,
    grid,
    has_shape,
    lemma_flatten_len,
    reshape,
    reshaped,
    fits_enlarged,
    first_width,
    width,
};
use crate::padding::{reflection_pad_rect, reflection_padded, reflection_padded_rect};
use crate::sample::{unit_laws, Sample};

verus! {

/// `acc + src[off] * ker[0] + ... + src[off + m - 1] * ker[m - 1]`, added from
/// the left.
pub open spec fn dot_from<T: Sample>(acc: T, src: Seq<T>, off: int, ker: Seq<T>, m: int) -> T
    decreases m,
{
    if m <= 0 {
        acc
    } else {
        dot_from(acc, src, off, ker, m - 1).add_spec(src[off + m - 1].mul_spec(ker[m - 1]))
    }
}

/// The kernel laid over `src` at every offset `0..len`, without flipping it.
pub open spec fn correlation<T: Sample>(src: Seq<T>, ker: Seq<T>, len: int) -> Seq<T> {
    Seq::new(len as nat, |i: int| dot_from(T::zero_spec(), src, i, ker, ker.len() as int))
}

/// `input` with `k / 2` zeros before it and `k - k / 2` after it.
pub open spec fn zero_extended<T: Sample>(input: Seq<T>, k: int) -> Seq<T> {
    Seq::new(
        (input.len() + k) as nat,
        |t: int|
            if k / 2 <= t < k / 2 + input.len() {
                input[t - k / 2]
            } else {
                T::zero_spec()
            },
    )
}

/// The error of a 1D convolution, if any: an empty input or kernel, then a
/// kernel not shorter than the input.
pub open spec fn conv_error<T>(input: Seq<T>, kernel: Seq<T>) -> Option<Error> {
    if input.len() == 0 || kernel.len() == 0 {
        Some(Error::EmptyInput)
    } else if kernel.len() >= input.len() {
        Some(Error::ShapeMismatch)
    } else {
        None
    }
}

/// The window of rows `i..i + n` and columns `j..j + width(ker)` of `p`
/// weighted by `ker`, row by row, each row added from the left.
pub open spec fn window_sum<T: Sample>(
    p: Seq<Seq<T>>,
    ker: Seq<Seq<T>>,
    i: int,
    j: int,
    n: int,
) -> T
    decreases n,
{
    if n <= 0 {
        T::zero_spec()
    } else {
        dot_from(window_sum(p, ker, i, j, n - 1), p[i + n - 1], j, ker[n - 1], width(ker))
    }
}

/// The field correlated with the kernel over its reflection padding, rows
/// padded for the kernel's height and columns for its width.
pub open spec fn correlation_2d<T: Sample>(g: Seq<Seq<T>>, ker: Seq<Seq<T>>) -> Seq<Seq<T>> {
    let p = reflection_padded_rect(g, ker.len() as int, width(ker));
    Seq::new(
        g.len(),
        |i: int|
            Seq::new(
                width(g) as nat,
                |j: int| window_sum(p, ker, i, j, ker.len() as int),
            ),
    )
}

/// The error of a 2D convolution, if any: what is wrong with the field, then
/// with the kernel, then a kernel not smaller than the field in both
/// directions.
pub open spec fn conv_2d_error<T>(g: Seq<Seq<T>>, ker: Seq<Seq<T>>) -> Option<Error> {
    if field_error(g).is_some() {
        field_error(g)
    } else if field_error(ker).is_some() {
        field_error(ker)
    } else if ker.len() >= g.len() || width(ker) >= width(g) {
        Some(Error::ShapeMismatch)
    } else {
        None
    }
}

/// Adds `src[off + j] * ker[j]` for each `j` of the kernel to `acc`.
fn dot_acc<T: Sample>(acc: T, src: &Vec<T>, off: usize, ker: &Vec<T>) -> (r: T)
    requires
        off + ker@.len() <= src@.len(),
    ensures
        r == dot_from(acc, src@, off as int, ker@, ker@.len() as int),
{
    let mut val = acc;
    let len = src.len();
    let mut j: usize = 0;
    while j < ker.len()
        invariant
            len == src@.len(),
            off + ker@.len() <= src@.len(),
            j <= ker@.len(),
            val == dot_from(acc, src@, off as int, ker@, j as int),
        decreases ker@.len() - j,
    {
        val = val.plus(src[off + j].times(ker[j]));
        j += 1;
    }
    val
}

/// The kernel slid over `src` at offsets `0..len`.
fn slide<T: Sample>(src: &Vec<T>, kernel: &Vec<T>, len: usize) -> (r: Vec<T>)
    requires
        len + kernel@.len() <= src@.len() + 1,
    ensures
        r@ == correlation(src@, kernel@, len as int),
{
    let mut out: Vec<T> = Vec::new();
    let mut i: usize = 0;
    while i < len
        invariant
            len + kernel@.len() <= src@.len() + 1,
            i <= len,
            out@ =~= correlation(src@, kernel@, i as int),
        decreases len - i,
    {
        out.push(dot_acc(T::zero(), src, i, kernel));
        i += 1;
    }
    out
}

/// Basic convolution with no padding, in its compatible form: the kernel is
/// laid at the first `input.len() - kernel.len()` offsets only, so the last
/// full window is left out. [`conv_valid`] covers every window.
pub fn conv<T: Sample>(input: &Vec<T>, kernel: &Vec<T>) -> (r: Result<Vec<T>, Error>)
    ensures
        match conv_error(input@, kernel@) {
            Some(e) => r == Err::<Vec<T>, Error>(e),
            None => r.is_ok() && r.unwrap()@ == correlation(
                input@,
                kernel@,
                input@.len() - kernel@.len(),
            ),
        },
{
    if input.len() == 0 || kernel.len() == 0 {
        return Err(Error::EmptyInput);
    }
    if kernel.len() >= input.len() {
        return Err(Error::ShapeMismatch);
    }
    Ok(slide(input, kernel, input.len() - kernel.len()))
}

/// Basic convolution with no padding over every full window: one output per
/// offset `0..=input.len() - kernel.len()`.
pub fn conv_valid<T: Sample>(input: &Vec<T>, kernel: &Vec<T>) -> (r: Result<Vec<T>, Error>)
    ensures
        match conv_error(input@, kernel@) {
            Some(e) => r == Err::<Vec<T>, Error>(e),
            None => r.is_ok() && r.unwrap()@ == correlation(
                input@,
                kernel@,
                input@.len() - kernel@.len() + 1,
            ),
        },
{
    if input.len() == 0 || kernel.len() == 0 {
        return Err(Error::EmptyInput);
    }
    if kernel.len() >= input.len() {
        return Err(Error::ShapeMismatch);
    }
    Ok(slide(input, kernel, input.len() - kernel.len() + 1))
}

/// Convolution over the input padded with zeros on both sides, so that the
/// kernel's centre lies on each sample in turn: one output per input sample.
pub fn conv_pad<T: Sample>(input: &Vec<T>, kernel: &Vec<T>) -> (r: Result<Vec<T>, Error>)
    requires
        input@.len() + kernel@.len() <= usize::MAX,
    ensures
        match conv_error(input@, kernel@) {
            Some(e) => r == Err::<Vec<T>, Error>(e),
            None => r.is_ok() && r.unwrap()@ == correlation(
                zero_extended(input@, kernel@.len() as int),
                kernel@,
                input@.len() as int,
            ),
        },
{
    if input.len() == 0 || kernel.len() == 0 {
        return Err(Error::EmptyInput);
    }
    if kernel.len() >= input.len() {
        return Err(Error::ShapeMismatch);
    }
    let n = input.len();
    let k = kernel.len();
    let h = k / 2;
    let ghost spec = zero_extended(input@, k as int);
    let mut padded: Vec<T> = Vec::new();
    let mut t: usize = 0;
    while t < n + k
        invariant
            n == input@.len(),
            k == kernel@.len(),
            h == k / 2,
            n + k <= usize::MAX,
            spec == zero_extended(input@, k as int),
            t <= n + k,
            padded@ =~= spec.subrange(0, t as int),
        decreases n + k - t,
    {
        if h <= t && t < h + n {
            padded.push(input[t - h]);
        } else {
            padded.push(T::zero());
        }
        t += 1;
    }
    assert(padded@ =~= spec);
    Ok(slide(&padded, kernel, n))
}

/// Direct 2D convolution: the field is reflection-padded for the kernel's
/// height and width, then every output sample is the kernel laid over the
/// padded field at that place, without flipping the kernel. The output has the
/// field's shape.
pub fn conv_2d<T: Sample>(input: &Vec<Vec<T>>, kernel: &Vec<Vec<T>>) -> (r: Result<
    Vec<Vec<T>>,
    Error,
>)
    requires
        fits_enlarged(input@, kernel@.len() as int, first_width(kernel@)),
    ensures
        match conv_2d_error(grid(input@), grid(kernel@)) {
            Some(e) => r == Err::<Vec<Vec<T>>, Error>(e),
            None => r.is_ok() && grid(r.unwrap()@) == correlation_2d(grid(input@), grid(kernel@)),
        },
{
    if let Some(e) = check_field(input) {
        return Err(e);
    }
    if let Some(e) = check_field(kernel) {
        return Err(e);
    }
    let ghost g = grid(input@);
    let ghost ker = grid(kernel@);
    let rows = input.len();
    let cols = input[0].len();
    let kh = kernel.len();
    let kw = kernel[0].len();
    assert(ker[0] == kernel@[0]@);
    assert(g[0] == input@[0]@);
    if kh >= rows || kw >= cols {
        return Err(Error::ShapeMismatch);
    }
    let padded = match reflection_pad_rect(input, kh, kw) {
        Ok(p) => p,
        Err(e) => return Err(e),
    };
    let ghost p = reflection_padded_rect(g, kh as int, kw as int);
    assert(grid(padded@) == p);
    assert(input@[0]@.len() + kw <= usize::MAX);
    let ghost spec = correlation_2d(g, ker);
    let mut out: Vec<Vec<T>> = Vec::new();
    let mut i: usize = 0;
    while i < rows
        invariant
            g == grid(input@),
            ker == grid(kernel@),
            has_shape(g, rows as int, cols as int),
            has_shape(ker, kh as int, kw as int),
            kh < rows,
            kw < cols,
            cols + kw <= usize::MAX,
            rows + kh <= usize::MAX,
            grid(padded@) == p,
            p == reflection_padded_rect(g, kh as int, kw as int),
            spec == correlation_2d(g, ker),
            out@.len() == i,
            i <= rows,
            forall|a: int| 0 <= a < i ==> #[trigger] out@[a]@ == spec[a],
        decreases rows - i,
    {
        let mut row: Vec<T> = Vec::new();
        let mut j: usize = 0;
        while j < cols
            invariant
                g == grid(input@),
                ker == grid(kernel@),
                has_shape(g, rows as int, cols as int),
                has_shape(ker, kh as int, kw as int),
                kh < rows,
                kw < cols,
                cols + kw <= usize::MAX,
                rows + kh <= usize::MAX,
                grid(padded@) == p,
                p == reflection_padded_rect(g, kh as int, kw as int),
                spec == correlation_2d(g, ker),
                i < rows,
                row@.len() == j,
                j <= cols,
                forall|b: int| 0 <= b < j ==> #[trigger] row@[b] == spec[i as int][b],
            decreases cols - j,
        {
            let mut sum = T::zero();
            let mut n: usize = 0;
            while n < kh
                invariant
                    has_shape(g, rows as int, cols as int),
                    has_shape(ker, kh as int, kw as int),
                    ker == grid(kernel@),
                    kh < rows,
                    kw < cols,
                    cols + kw <= usize::MAX,
                    rows + kh <= usize::MAX,
                    grid(padded@) == p,
                    p == reflection_padded_rect(g, kh as int, kw as int),
                    i < rows,
                    j < cols,
                    n <= kh,
                    sum == window_sum(p, ker, i as int, j as int, n as int),
                decreases kh - n,
            {
                assert(p.len() == rows + kh - 1);
                assert(grid(padded@)[i + n] == padded@[i + n]@);
                assert(kernel@[n as int]@ == ker[n as int]);
                sum = dot_acc(sum, &padded[i + n], j, &kernel[n]);
                n += 1;
            }
            row.push(sum);
            j += 1;
        }
        assert(row@ =~= spec[i as int]);
        out.push(row);
        i += 1;
    }
    assert(grid(out@) =~= spec);
    Ok(out)
}

} // verus!

verus! {

/// A direct 2D convolution has the shape of its field.
pub proof fn lemma_conv_2d_shape<T: Sample>(g: Seq<Seq<T>>, ker: Seq<Seq<T>>)
    requires
        conv_2d_error(g, ker).is_none(),
    ensures
        has_shape(correlation_2d(g, ker), g.len() as int, width(g)),
{
}

/// The 3 by 3 kernel with a one at its centre and zeros around it.
pub open spec fn identity_kernel<T: Sample>() -> Seq<Seq<T>> {
    let z = T::zero_spec();
    seq![seq![z, z, z], seq![z, T::one_spec(), z], seq![z, z, z]]
}

/// Under the unit laws, the 3 by 3 identity kernel reproduces every field
/// larger than it exactly.
pub proof fn lemma_identity_kernel<T: Sample>(g: Seq<Seq<T>>)
    requires
        unit_laws::<T>(),
        conv_2d_error(g, identity_kernel::<T>()).is_none(),
    ensures
        correlation_2d(g, identity_kernel::<T>()) == g,
{
    let ker = identity_kernel::<T>();
    let z = T::zero_spec();
    let p = reflection_padded(g, 3);
    let c = correlation_2d(g, ker);
    assert(width(ker) == 3);
    assert forall|i: int| 0 <= i < g.len() implies #[trigger] c[i] == g[i] by {
        assert(g[i].len() == g[0].len());
        assert forall|j: int| 0 <= j < width(g) implies #[trigger] c[i][j] == g[i][j] by {
            reveal_with_fuel(dot_from, 4);
            reveal_with_fuel(window_sum, 4);
            let a = p[i];
            let b = p[i + 1];
            let d = p[i + 2];
            assert(dot_from(z, a, j, ker[0], 3) == z) by {
                assert(z.add_spec(a[j].mul_spec(z)) == z);
            }
            assert(b[j + 1] == g[i][j]);
            assert(dot_from(z, b, j, ker[1], 3) == g[i][j]) by {
                assert(z.add_spec(b[j].mul_spec(z)) == z);
                assert(z.add_spec(b[j + 1].mul_spec(T::one_spec())) == b[j + 1]);
            }
            assert(dot_from(g[i][j], d, j, ker[2], 3) == g[i][j]);
        }
        assert(c[i] =~= g[i]);
    }
    assert(c =~= g);
}

} // verus!

verus! {

/// `s` followed by zeros up to length `n`.
pub open spec fn zero_filled<T: Sample>(s: Seq<T>, n: nat) -> Seq<T> {
    Seq::new(n, |i: int| if i < s.len() { s[i] } else { T::zero_spec() })
}

/// The products of two spectra, sample by sample.
pub open spec fn pointwise<C: Spectral>(a: Seq<C>, b: Seq<C>) -> Seq<C> {
    Seq::new(a.len(), |i: int| a[i].cmul_spec(b[i]))
}

/// Both sequences transformed at the power of two that fits `img`, multiplied,
/// transformed back and taken by magnitude; `ker` is first zero-filled to the
/// length of `img`.
pub open spec fn fourier_product<C: Spectral>(img: Seq<C::Real>, ker: Seq<C::Real>) -> Seq<
    C::Real,
> {
    let p = next_pow2(img.len());
    let a = radix2(lifted::<C>(img, p), false);
    let b = radix2(lifted::<C>(zero_filled(ker, img.len()), p), false);
    norms(radix2(pointwise(a, b), true))
}

/// The Fourier-domain product of the flattened field and the flattened kernel,
/// put back into the field's shape. The kernel stands at the origin, so the
/// result is shifted against [`correlation_2d`].
pub open spec fn fourier_correlation<C: Spectral>(
    g: Seq<Seq<C::Real>>,
    ker: Seq<Seq<C::Real>>,
) -> Seq<Seq<C::Real>> {
    reshaped(fourier_product::<C>(g.flatten(), ker.flatten()), g.len() as int, width(g))
}

/// The error of a Fourier-domain convolution, if any: what is wrong with the
/// field, then with the kernel, then a kernel not smaller than the field in
/// both directions.
pub open spec fn fft_conv_error<T>(g: Seq<Seq<T>>, ker: Seq<Seq<T>>) -> Option<Error> {
    if field_error(g).is_some() {
        field_error(g)
    } else if field_error(ker).is_some() {
        field_error(ker)
    } else if ker.len() >= g.len() || width(ker) >= width(g) {
        Some(Error::ShapeMismatch)
    } else {
        None
    }
}

/// Convolution through the fast transform: the field and the kernel are
/// flattened row by row, the kernel zero-filled to the field's length at the
/// origin, both transformed, multiplied sample by sample, transformed back,
/// and the magnitudes put back into the field's shape.
pub fn fft_conv_2d<C: Spectral>(input: &Vec<Vec<C::Real>>, kernel: &Vec<Vec<C::Real>>) -> (r:
    Result<Vec<Vec<C::Real>>, Error>)
    requires
        grid(input@).flatten().len() <= usize::MAX / 2,
    ensures
        match fft_conv_error(grid(input@), grid(kernel@)) {
            Some(e) => r == Err::<Vec<Vec<C::Real>>, Error>(e),
            None => r.is_ok() && grid(r.unwrap()@) == fourier_correlation::<C>(
                grid(input@),
                grid(kernel@),
            ),
        },
{
    if let Some(e) = check_field(input) {
        return Err(e);
    }
    if let Some(e) = check_field(kernel) {
        return Err(e);
    }
    let ghost g = grid(input@);
    let ghost ker = grid(kernel@);
    let height = input.len();
    let width = input[0].len();
    assert(ker[0] == kernel@[0]@);
    assert(g[0] == input@[0]@);
    if kernel.len() >= height || kernel[0].len() >= width {
        return Err(Error::ShapeMismatch);
    }
    let image = flatten(input);
    let flat_kernel = flatten(kernel);
    proof {
        lemma_flatten_len(g, width as int);
        lemma_flatten_len(ker, ker[0].len() as int);
        let (a, b, c, d) = (ker.len() as int, ker[0].len() as int, height as int, width as int);
        assert(a * b <= c * d) by (nonlinear_arith)
            requires
                0 <= a < c,
                0 <= b < d,
        ;
    }
    let n = image.len();
    let ghost kspec = zero_filled(flat_kernel@, n as nat);
    let mut padded_kernel: Vec<C::Real> = Vec::new();
    let mut i: usize = 0;
    while i < n
        invariant
            flat_kernel@.len() <= n,
            kspec == zero_filled(flat_kernel@, n as nat),
            i <= n,
            padded_kernel@ =~= kspec.subrange(0, i as int),
        decreases n - i,
    {
        if i < flat_kernel.len() {
            padded_kernel.push(flat_kernel[i]);
        } else {
            padded_kernel.push(C::Real::zero());
        }
        i += 1;
    }
    assert(padded_kernel@ =~= kspec);
    let image_fft = fft::<C>(&image);
    let kernel_fft = fft::<C>(&padded_kernel);
    let ghost prod = pointwise(image_fft@, kernel_fft@);
    let mut result_fft: Vec<C> = Vec::new();
    let mut k: usize = 0;
    while k < image_fft.len()
        invariant
            image_fft@.len() == kernel_fft@.len(),
            prod == pointwise(image_fft@, kernel_fft@),
            k <= image_fft@.len(),
            result_fft@ =~= prod.subrange(0, k as int),
        decreases image_fft@.len() - k,
    {
        result_fft.push(image_fft[k].cmul(kernel_fft[k]));
        k += 1;
    }
    assert(result_fft@ =~= prod);
    assert(is_pow2(result_fft@.len()));
    let result = match ifft(&result_fft) {
        Ok(v) => v,
        Err(e) => return Err(e),
    };
    proof {
        lemma_next_pow2(n as nat);
    }
    Ok(reshape(&result, height, width))
}

/// Position `t` of a padded axis read back into the kernel: `t - pad` past the
/// padding, its mirror `pad - 1 - t` within it.
pub open spec fn mirror_offset(t: int, pad: int) -> int {
    if t >= pad {
        t - pad
    } else {
        pad - 1 - t
    }
}

/// A `rows` by `cols` field of zeros with the kernel placed at offset
/// `(height / 2, width / 2)` and mirrored into the rows and columns before it,
/// so that its spectrum matches that of a kernel centred at the origin.
pub open spec fn centered_kernel<T: Sample>(ker: Seq<Seq<T>>, rows: int, cols: int) -> Seq<
    Seq<T>,
> {
    let py = ker.len() as int / 2;
    let px = width(ker) / 2;
    Seq::new(
        rows as nat,
        |y: int|
            Seq::new(
                cols as nat,
                |x: int|
                    if y < ker.len() + py && x < width(ker) + px {
                        ker[mirror_offset(y, py)][mirror_offset(x, px)]
                    } else {
                        T::zero_spec()
                    },
            ),
    )
}

/// The error of a centred placement, if any: what is wrong with the kernel,
/// then a kernel that with its mirrored half does not fit the field.
pub open spec fn placement_error<T>(ker: Seq<Seq<T>>, rows: int, cols: int) -> Option<Error> {
    if field_error(ker).is_some() {
        field_error(ker)
    } else if ker.len() + ker.len() / 2 > rows || width(ker) + width(ker) / 2 > cols {
        Some(Error::ShapeMismatch)
    } else {
        None
    }
}

/// The kernel placed for a Fourier-domain convolution with a `rows` by `cols`
/// field, flattened row by row: see [`centered_kernel`].
pub fn place_kernel_centered<T: Sample>(kernel: &Vec<Vec<T>>, rows: usize, cols: usize) -> (r:
    Result<Vec<T>, Error>)
    ensures
        match placement_error(grid(kernel@), rows as int, cols as int) {
            Some(e) => r == Err::<Vec<T>, Error>(e),
            None => r.is_ok() && r.unwrap()@ == centered_kernel(
                grid(kernel@),
                rows as int,
                cols as int,
            ).flatten(),
        },
{
    if let Some(e) = check_field(kernel) {
        return Err(e);
    }
    let ghost ker = grid(kernel@);
    let kh = kernel.len();
    let kw = kernel[0].len();
    assert(ker[0] == kernel@[0]@);
    if kh > rows || kh / 2 > rows - kh || kw > cols || kw / 2 > cols - kw {
        return Err(Error::ShapeMismatch);
    }
    let py = kh / 2;
    let px = kw / 2;
    let ghost spec = centered_kernel(ker, rows as int, cols as int);
    let mut canvas: Vec<Vec<T>> = Vec::new();
    let mut y: usize = 0;
    while y < rows
        invariant
            ker == grid(kernel@),
            has_shape(ker, kh as int, kw as int),
            kh + py <= rows,
            kw + px <= cols,
            py == kh / 2,
            px == kw / 2,
            spec == centered_kernel(ker, rows as int, cols as int),
            y <= rows,
            canvas@.len() == y,
            forall|a: int| 0 <= a < y ==> #[trigger] canvas@[a]@ == spec[a],
        decreases rows - y,
    {
        let mut row: Vec<T> = Vec::new();
        let mut x: usize = 0;
        while x < cols
            invariant
                ker == grid(kernel@),
                has_shape(ker, kh as int, kw as int),
                kh + py <= rows,
                kw + px <= cols,
                py == kh / 2,
                px == kw / 2,
                spec == centered_kernel(ker, rows as int, cols as int),
                y < rows,
                x <= cols,
                row@ =~= spec[y as int].subrange(0, x as int),
            decreases cols - x,
        {
            if y < kh + py && x < kw + px {
                let sy = if y >= py {
                    y - py
                } else {
                    py - 1 - y
                };
                let sx = if x >= px {
                    x - px
                } else {
                    px - 1 - x
                };
                assert(kernel@[sy as int]@ == ker[sy as int]);
                row.push(kernel[sy][sx]);
            } else {
                row.push(T::zero());
            }
            x += 1;
        }
        assert(row@ =~= spec[y as int]);
        canvas.push(row);
        y += 1;
    }
    assert(grid(canvas@) =~= spec);
    Ok(flatten(&canvas))
}

} // verus!
