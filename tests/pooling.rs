use rust_convolutions::pooling::{pick_windows, pool_windows, stochastic_pooling};
use rust_convolutions::Error;

#[test]
fn pool_windows_cover_zero_padding() {
    let field = vec![vec![1i64, 2], vec![3, 4]];
    let w = pool_windows(&field, 3).unwrap();
    assert_eq!(w.len(), 2);
    assert_eq!(w[0][0], vec![0, 0, 0, 0, 1, 2, 0, 3, 4]);
    assert_eq!(w[1][1], vec![1, 2, 0, 3, 4, 0, 0, 0, 0]);
}

#[test]
fn stochastic_pooling_draws_from_the_window() {
    let field = vec![vec![1i64, 2, 3], vec![4, 5, 6], vec![7, 8, 9]];
    let w = pool_windows(&field, 3).unwrap();
    for _ in 0..20 {
        let out = stochastic_pooling(&field, 3).unwrap();
        assert_eq!(out.len(), 3);
        for i in 0..3 {
            assert_eq!(out[i].len(), 3);
            for j in 0..3 {
                assert!(w[i][j].contains(&out[i][j]));
            }
        }
    }
}

#[test]
fn pooling_rejects_empty_window() {
    assert_eq!(stochastic_pooling(&vec![vec![1i64]], 0), Err(Error::EmptyInput));
    assert_eq!(pool_windows(&Vec::<Vec<i64>>::new(), 3), Err(Error::EmptyInput));
}

#[test]
fn pick_windows_takes_the_drawn_position() {
    let field = vec![vec![1i64, 2], vec![3, 4]];
    let w = pool_windows(&field, 3).unwrap();
    let draws = vec![vec![4, 0], vec![8, 3]];
    assert_eq!(pick_windows(&w, &draws), vec![vec![1, 0], vec![0, 3]]);
}
