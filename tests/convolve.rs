use rust_convolutions::convolve::{conv, conv_2d, conv_pad, conv_valid, place_kernel_centered};
use rust_convolutions::sample::Sample;
use rust_convolutions::Error;

#[derive(Clone, Copy, Debug, PartialEq)]
struct Real(f64);

impl Sample for Real {
    fn zero() -> Real {
        Real(0.0)
    }
    fn plus(self, rhs: Real) -> Real {
        Real(self.0 + rhs.0)
    }
    fn times(self, rhs: Real) -> Real {
        Real(self.0 * rhs.0)
    }
}

fn reals(v: &[f64]) -> Vec<Real> {
    v.iter().map(|x| Real(*x)).collect()
}

#[test]
fn conv_leaves_out_the_last_window() {
    let out = conv(&vec![1i64, 2, 3, 4, 5], &vec![1, 1]).unwrap();
    assert_eq!(out, vec![3, 5, 7]);
}

#[test]
fn conv_valid_covers_every_window() {
    let out = conv_valid(&vec![1i64, 2, 3, 4, 5], &vec![1, 1]).unwrap();
    assert_eq!(out, vec![3, 5, 7, 9]);
    assert_eq!(conv_valid(&vec![1i64, 2], &vec![1, 1]), Err(Error::ShapeMismatch));
}

#[test]
fn conv_rejects_bad_kernels() {
    assert_eq!(conv(&vec![1i64, 2], &vec![]), Err(Error::EmptyInput));
    assert_eq!(conv(&vec![], &vec![1i64]), Err(Error::EmptyInput));
    assert_eq!(conv(&vec![1i64, 2], &vec![1, 1]), Err(Error::ShapeMismatch));
    assert_eq!(conv_pad(&vec![1i64, 2], &vec![1, 1, 1]), Err(Error::ShapeMismatch));
}

#[test]
fn conv_pad_moving_average() {
    let input = reals(&[0., 0., 0., 4., 4., 4., 4., 0., 0., 4., 4., 4., 0., 0., 0.]);
    let kernel = reals(&[1. / 3., 1. / 3., 1. / 3.]);
    let out = conv_pad(&input, &kernel).unwrap();
    assert_eq!(out.len(), 15);
    assert!((out[3].0 - 8. / 3.).abs() < 1e-9);
    assert!((out[4].0 - 4.0).abs() < 1e-9);
    assert!((out[5].0 - 4.0).abs() < 1e-9);
    assert!((out[0].0 - 0.0).abs() < 1e-9);
    assert!((out[7].0 - 4. / 3.).abs() < 1e-9);
}

#[test]
fn conv_pad_centres_the_kernel() {
    let out = conv_pad(&vec![1i64, 2, 3, 4], &vec![1, 10, 100]).unwrap();
    assert_eq!(out, vec![210, 321, 432, 43]);
}

fn field4() -> Vec<Vec<i64>> {
    vec![vec![1, 2, 3, 4], vec![5, 6, 7, 8], vec![9, 10, 11, 12], vec![13, 14, 15, 16]]
}

#[test]
fn conv_2d_identity_kernel_reproduces_field() {
    let id = vec![vec![0i64, 0, 0], vec![0, 1, 0], vec![0, 0, 0]];
    assert_eq!(conv_2d(&field4(), &id).unwrap(), field4());
    let field: Vec<Vec<Real>> = vec![reals(&[0.5, -1.25, 3.0, 7.0]), reals(&[2.0, 0.0, 1.5, -4.0]), reals(&[9.0, 8.0, 7.0, 6.0]), reals(&[0.1, 0.2, 0.3, 0.4])];
    let idr: Vec<Vec<Real>> = vec![reals(&[0., 0., 0.]), reals(&[0., 1., 0.]), reals(&[0., 0., 0.])];
    assert_eq!(conv_2d(&field, &idr).unwrap(), field);
}

#[test]
fn conv_2d_box_sum() {
    let ones = vec![vec![1i64; 3]; 3];
    let out = conv_2d(&field4(), &ones).unwrap();
    assert_eq!(out.len(), 4);
    assert!(out.iter().all(|r| r.len() == 4));
    assert_eq!(out[0][0], 39);
    assert_eq!(out[1][1], 54);
}

#[test]
fn conv_2d_does_not_flip_the_kernel() {
    let shift = vec![vec![0i64, 0, 0], vec![0, 0, 1], vec![0, 0, 0]];
    let out = conv_2d(&field4(), &shift).unwrap();
    assert_eq!(out[0], vec![2, 3, 4, 3]);
}

#[test]
fn conv_2d_takes_non_square_kernels() {
    let column = vec![vec![1i64], vec![1], vec![1]];
    let out = conv_2d(&field4(), &column).unwrap();
    assert_eq!(out.len(), 4);
    assert!(out.iter().all(|r| r.len() == 4));
    assert_eq!(out[0][0], 11);
    assert_eq!(out[3][0], 31);
    let row = vec![vec![1i64, 2, 3]];
    let out = conv_2d(&field4(), &row).unwrap();
    assert_eq!(out[0][0], 10);
    let field5: Vec<Vec<i64>> = (0..5).map(|r| (0..5).map(|c| r * 5 + c).collect()).collect();
    let out = conv_2d(&field5, &column).unwrap();
    assert_eq!(out.len(), 5);
    assert!(out.iter().all(|r| r.len() == 5));
}

#[test]
fn conv_2d_rejects_bad_shapes() {
    let big = vec![vec![1i64; 5]; 5];
    assert_eq!(conv_2d(&field4(), &big), Err(Error::ShapeMismatch));
    let wide = vec![vec![1i64; 5]; 1];
    assert_eq!(conv_2d(&field4(), &wide), Err(Error::ShapeMismatch));
    assert_eq!(conv_2d(&field4(), &vec![]), Err(Error::EmptyInput));
    assert_eq!(conv_2d(&vec![vec![1i64, 2], vec![3]], &vec![vec![1]]), Err(Error::ShapeMismatch));
}

#[test]
fn place_kernel_centered_mirrors_into_the_corner() {
    let k = vec![vec![1i64, 2, 3], vec![4, 5, 6], vec![7, 8, 9]];
    let out = place_kernel_centered(&k, 4, 5).unwrap();
    assert_eq!(
        out,
        vec![1, 1, 2, 3, 0, 1, 1, 2, 3, 0, 4, 4, 5, 6, 0, 7, 7, 8, 9, 0]
    );
    assert_eq!(place_kernel_centered(&k, 3, 5), Err(Error::ShapeMismatch));
}
