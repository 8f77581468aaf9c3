use rust_convolutions::convolve::fft_conv_2d;
use rust_convolutions::dft::{
    dft, fft, fft_recursive, ifft, ifft_recursive, is_power_of_two, next_power_of_two, Spectral,
};
use rust_convolutions::sample::Sample;
use rust_convolutions::Error;

#[derive(Clone, Copy, Debug, PartialEq)]
struct Re(f64);

impl Sample for Re {
    fn zero() -> Re {
        Re(0.0)
    }
    fn plus(self, rhs: Re) -> Re {
        Re(self.0 + rhs.0)
    }
    fn times(self, rhs: Re) -> Re {
        Re(self.0 * rhs.0)
    }
}

#[derive(Clone, Copy, Debug, PartialEq)]
struct Cx(f64, f64);

impl Spectral for Cx {
    type Real = Re;
    fn lift(x: Re) -> Cx {
        Cx(x.0, 0.0)
    }
    fn czero() -> Cx {
        Cx(0.0, 0.0)
    }
    fn cadd(self, o: Cx) -> Cx {
        Cx(self.0 + o.0, self.1 + o.1)
    }
    fn csub(self, o: Cx) -> Cx {
        Cx(self.0 - o.0, self.1 - o.1)
    }
    fn cmul(self, o: Cx) -> Cx {
        Cx(self.0 * o.0 - self.1 * o.1, self.0 * o.1 + self.1 * o.0)
    }
    fn halve(self) -> Cx {
        Cx(self.0 / 2.0, self.1 / 2.0)
    }
    fn rotation(k: usize, n: usize, len: usize, inverse: bool) -> Cx {
        let sign = if inverse { 2.0 } else { -2.0 };
        let theta = sign * std::f64::consts::PI * (k as f64) * (n as f64) / (len as f64);
        Cx(theta.cos(), theta.sin())
    }
    fn norm(self) -> Re {
        Re(self.0.hypot(self.1))
    }
}

fn close(a: Cx, b: Cx) -> bool {
    (a.0 - b.0).abs() < 1e-9 && (a.1 - b.1).abs() < 1e-9
}

#[test]
fn power_of_two_sizing() {
    assert!(is_power_of_two(1));
    assert!(is_power_of_two(64));
    assert!(!is_power_of_two(0));
    assert!(!is_power_of_two(12));
    assert_eq!(next_power_of_two(0), 1);
    assert_eq!(next_power_of_two(1), 1);
    assert_eq!(next_power_of_two(5), 8);
    assert_eq!(next_power_of_two(8), 8);
    assert_eq!(next_power_of_two(9), 16);
}

#[test]
fn dft_of_impulse_is_flat() {
    let x = vec![Cx(1.0, 0.0), Cx(0.0, 0.0), Cx(0.0, 0.0), Cx(0.0, 0.0)];
    let out = dft(&x);
    assert_eq!(out.len(), 4);
    assert!(out.iter().all(|c| close(*c, Cx(1.0, 0.0))));
}

#[test]
fn dft_of_constant_is_an_impulse() {
    let x = vec![Cx(2.0, 0.0); 3];
    let out = dft(&x);
    assert!(close(out[0], Cx(6.0, 0.0)));
    assert!(close(out[1], Cx(0.0, 0.0)));
    assert!(close(out[2], Cx(0.0, 0.0)));
}

#[test]
fn fast_transform_matches_direct() {
    for len in [1usize, 2, 4, 8, 16, 32, 64] {
        let x: Vec<Cx> = (0..len)
            .map(|i| Cx(((i * 7 + 3) % 11) as f64 - 5.0, ((i * 5 + 1) % 7) as f64 * 0.5))
            .collect();
        let fast = fft_recursive(&x).unwrap();
        let slow = dft(&x);
        assert_eq!(fast.len(), len);
        for k in 0..len {
            assert!(close(fast[k], slow[k]), "len {} k {}", len, k);
        }
    }
}

#[test]
fn fast_transform_needs_power_of_two() {
    let x = vec![Cx(1.0, 0.0); 3];
    assert_eq!(fft_recursive(&x), Err(Error::LengthConstraint));
    assert_eq!(ifft_recursive(&x), Err(Error::LengthConstraint));
    assert_eq!(ifft::<Cx>(&x), Err(Error::LengthConstraint));
    assert_eq!(ifft::<Cx>(&vec![]), Err(Error::LengthConstraint));
}

#[test]
fn fft_pads_to_power_of_two() {
    let x = vec![Re(1.0), Re(2.0), Re(3.0)];
    let spec: Vec<Cx> = fft(&x);
    assert_eq!(spec.len(), 4);
    assert!(close(spec[0], Cx(6.0, 0.0)));
    assert!(close(spec[1], Cx(-2.0, -2.0)));
    assert!(close(spec[2], Cx(2.0, 0.0)));
}

#[test]
fn forward_then_inverse_recovers_input() {
    let x: Vec<Re> = [0.5, 3.0, 1.25, 7.0, 2.0, 0.0, 4.5].iter().map(|v| Re(*v)).collect();
    let spec: Vec<Cx> = fft(&x);
    let back = ifft::<Cx>(&spec).unwrap();
    assert_eq!(back.len(), 8);
    for i in 0..7 {
        assert!((back[i].0 - x[i].0).abs() < 1e-9);
    }
    assert!(back[7].0.abs() < 1e-9);
}

#[test]
fn inverse_recursive_halves_each_stage() {
    let x = vec![Cx(4.0, 0.0), Cx(0.0, 0.0)];
    let out = ifft_recursive(&x).unwrap();
    assert!(close(out[0], Cx(2.0, 0.0)));
    assert!(close(out[1], Cx(2.0, 0.0)));
}

#[test]
fn fft_conv_2d_keeps_shape_and_places_kernel_at_origin() {
    let field: Vec<Vec<Re>> = (0..4).map(|r| (0..4).map(|c| Re((r * 4 + c) as f64)).collect()).collect();
    let kernel = vec![vec![Re(1.0)]];
    let out = fft_conv_2d::<Cx>(&field, &kernel).unwrap();
    assert_eq!(out.len(), 4);
    for r in 0..4 {
        assert_eq!(out[r].len(), 4);
        for c in 0..4 {
            assert!((out[r][c].0 - field[r][c].0).abs() < 1e-9);
        }
    }
    let big = vec![vec![Re(1.0); 4]; 4];
    assert_eq!(fft_conv_2d::<Cx>(&field, &big), Err(Error::ShapeMismatch));
}
