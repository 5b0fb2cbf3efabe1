//! Tests for the two-dimensional index iteration used by convolution.

use rs_autograd::nar::conv::iter_conv2d_slices;
use rs_autograd::nar::conv_iter::V2;

#[test]
fn test_iter_indices_1x1() {
    let ix = V2(1, 1);
    let mut actual: Vec<V2> = Vec::new();
    let mut it = ix.iter();
    while let Some(i) = it.next() {
        actual.push(i)
    }
    assert_eq!(actual, vec![V2(0, 0)]);
}

#[test]
fn test_iter_indices_3x2() {
    let ix = V2(3, 2);
    let mut actual: Vec<V2> = Vec::new();
    let mut it = ix.iter();
    while let Some(i) = it.next() {
        actual.push(i)
    }
    assert_eq!(
        actual,
        vec![V2(0, 0), V2(0, 1), V2(1, 0), V2(1, 1), V2(2, 0), V2(2, 1)]
    );
}

#[test]
fn test_fail_iter_on_bad_shapes() {
    assert!(iter_conv2d_slices(&[3, 2], &[3, 3]).is_err());
    assert!(iter_conv2d_slices(&[2, 3], &[3, 3]).is_err());
}

#[test]
fn test_iter_conv_sliding() {
    // A 4x5 input whose cell (r, c) holds r * 5 + c, slid under a 3x3
    // kernel; record the first and last cell of each window.
    let a: Vec<Vec<i32>> = (0..4)
        .map(|r| (0..5).map(|c| (r * 5 + c) as i32).collect())
        .collect();
    let mut actual_slice_corners: Vec<(i32, i32)> = Vec::new();
    let mut it = iter_conv2d_slices(&[4, 5], &[3, 3]).unwrap();
    while let Some(corner) = it.next() {
        let (r, c) = (corner.0, corner.1);
        actual_slice_corners.push((a[r][c], a[r + 2][c + 2]));
    }
    assert_eq!(
        actual_slice_corners,
        vec![(0, 12), (1, 13), (2, 14), (5, 17), (6, 18), (7, 19)]
    );
}

#[test]
fn conv_output_shape() {
    let it = iter_conv2d_slices(&[5, 4], &[2, 3]).unwrap();
    assert_eq!(it.output_shape(), [4, 2]);
}

#[test]
fn v2_contains() {
    assert_eq!(V2(3, 3).contains(V2(2, 3)), Some(V2(2, 3)));
    assert_eq!(V2(3, 3).contains(V2(4, 0)), None);
}

#[test]
fn v2_try_sub() {
    assert_eq!(V2(3, 3).try_sub(V2(1, 2)), Some(V2(2, 1)));
    assert_eq!(V2(3, 3).try_sub(V2(4, 0)), None);
}
