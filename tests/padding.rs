use rust_convolutions::padding::{reflection_pad, reflection_pad_rect, zero_pad};
use rust_convolutions::Error;

fn field3() -> Vec<Vec<i64>> {
    vec![vec![1, 2, 3], vec![4, 5, 6], vec![7, 8, 9]]
}

#[test]
fn zero_pad_surrounds_with_zeros() {
    let out = zero_pad(&field3(), 3).unwrap();
    assert_eq!(
        out,
        vec![
            vec![0, 0, 0, 0, 0],
            vec![0, 1, 2, 3, 0],
            vec![0, 4, 5, 6, 0],
            vec![0, 7, 8, 9, 0],
            vec![0, 0, 0, 0, 0],
        ]
    );
}

#[test]
fn zero_pad_rejects_empty_input() {
    let empty: Vec<Vec<i64>> = vec![];
    assert_eq!(zero_pad(&empty, 3), Err(Error::EmptyInput));
    assert_eq!(zero_pad(&vec![Vec::<i64>::new()], 3), Err(Error::EmptyInput));
    assert_eq!(zero_pad(&field3(), 0), Err(Error::EmptyInput));
    assert_eq!(zero_pad(&vec![vec![1i64, 2], vec![3]], 3), Err(Error::ShapeMismatch));
}

#[test]
fn reflection_pad_mirrors_without_the_edge() {
    let out = reflection_pad(&field3(), 3).unwrap();
    assert_eq!(
        out,
        vec![
            vec![5, 4, 5, 6, 5],
            vec![2, 1, 2, 3, 2],
            vec![5, 4, 5, 6, 5],
            vec![8, 7, 8, 9, 8],
            vec![5, 4, 5, 6, 5],
        ]
    );
}

#[test]
fn reflection_pad_wide_border_mirrors_both_sides() {
    let out = reflection_pad(&field3(), 5).unwrap();
    assert_eq!(out.len(), 7);
    assert_eq!(out[0], vec![9, 8, 7, 8, 9, 8, 7]);
    assert_eq!(out[1], vec![6, 5, 4, 5, 6, 5, 4]);
    assert_eq!(out[2], vec![3, 2, 1, 2, 3, 2, 1]);
    assert_eq!(out[6], vec![3, 2, 1, 2, 3, 2, 1]);
}

#[test]
fn reflection_pad_interior_is_the_field() {
    let field: Vec<Vec<i64>> = (0..4).map(|r| (0..6).map(|c| r * 10 + c).collect()).collect();
    for size in [1usize, 3, 5, 7] {
        let out = reflection_pad(&field, size).unwrap();
        assert_eq!(out.len(), 4 + size - 1);
        let off = (size - 1) / 2;
        for (i, row) in field.iter().enumerate() {
            assert_eq!(out[i].len(), 6 + size - 1);
            assert_eq!(&out[i + off][off..off + 6], &row[..]);
        }
    }
}

#[test]
fn reflection_pad_rejects_kernel_larger_than_field() {
    assert_eq!(reflection_pad(&field3(), 7), Err(Error::ShapeMismatch));
    assert_eq!(reflection_pad(&field3(), 0), Err(Error::EmptyInput));
    assert_eq!(reflection_pad(&vec![vec![1i64, 2, 3], vec![4]], 3), Err(Error::ShapeMismatch));
}

#[test]
fn reflection_pad_rect_pads_each_axis_by_its_own_size() {
    let out = reflection_pad_rect(&field3(), 3, 1).unwrap();
    assert_eq!(out, vec![vec![4, 5, 6], vec![1, 2, 3], vec![4, 5, 6], vec![7, 8, 9], vec![4, 5, 6]]);
    let out = reflection_pad_rect(&field3(), 1, 3).unwrap();
    assert_eq!(out, vec![vec![2, 1, 2, 3, 2], vec![5, 4, 5, 6, 5], vec![8, 7, 8, 9, 8]]);
    assert_eq!(reflection_pad_rect(&field3(), 3, 7), Err(Error::ShapeMismatch));
    assert_eq!(reflection_pad_rect(&field3(), 0, 3), Err(Error::EmptyInput));
}
