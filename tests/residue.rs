use rust_convolutions::convolve::fft_conv_2d;
use rust_convolutions::dft::{dft, fft, fft_recursive, ifft, Spectral};
use rust_convolutions::residue::{Residue, MODULUS};
use rust_convolutions::sample::Sample;

fn residues(v: &[u64]) -> Vec<Residue> {
    v.iter().map(|x| Residue(*x)).collect()
}

#[test]
fn residue_arithmetic_reduces() {
    assert_eq!(Residue(MODULUS - 1).plus(Residue(5)), Residue(4));
    assert_eq!(Residue(MODULUS + 3).times(Residue(2)), Residue(6));
    assert_eq!(Residue(3).csub(Residue(5)), Residue(MODULUS - 2));
    assert_eq!(Residue(7).halve().times(Residue(2)), Residue(7));
}

#[test]
fn residue_rotation_is_a_root_of_unity() {
    let w = Residue::rotation(1, 1, 8, false);
    let mut p = Residue(1);
    for _ in 0..4 {
        p = p.times(w);
    }
    assert_eq!(p, Residue(MODULUS - 1));
    for _ in 0..4 {
        p = p.times(w);
    }
    assert_eq!(p, Residue(1));
    assert_eq!(w.times(Residue::rotation(1, 1, 8, true)), Residue(1));
}

#[test]
fn residue_fast_transform_equals_direct() {
    for len in [1usize, 2, 4, 8, 16, 32, 64] {
        let x: Vec<Residue> = (0..len as u64).map(|i| Residue((i * 37 + 11) % 1000)).collect();
        assert_eq!(fft_recursive(&x).unwrap(), dft(&x), "len {}", len);
    }
}

#[test]
fn residue_round_trip_is_exact() {
    let x = residues(&[5, 0, 17, 3, 900, 42, 1]);
    let spec: Vec<Residue> = fft(&x);
    let back = ifft::<Residue>(&spec).unwrap();
    assert_eq!(back, residues(&[5, 0, 17, 3, 900, 42, 1, 0]));
}

#[test]
fn residue_fourier_convolution_is_cyclic() {
    let field: Vec<Vec<Residue>> = vec![residues(&[1, 2]), residues(&[3, 4])];
    let kernel = vec![residues(&[1, 0]), residues(&[0, 0])];
    assert_eq!(fft_conv_2d::<Residue>(&field, &kernel), Err(rust_convolutions::Error::ShapeMismatch));
    let field: Vec<Vec<Residue>> = vec![residues(&[1, 2, 3]), residues(&[4, 5, 6])];
    let kernel = vec![residues(&[1, 1])];
    // flattened field [1..6] extended to 8, kernel [1, 1, 0, ...]: out[t] = f[t] + f[t - 1]
    let out = fft_conv_2d::<Residue>(&field, &kernel).unwrap();
    assert_eq!(out, vec![residues(&[1, 3, 5]), residues(&[7, 9, 11])]);
}
