use dicom_preprocessor::source::{histogram_gradient_of, sample_stats};

#[test]
fn histogram_gradient_scenario() {
    // histogram [0,10,10,10,0] -> raw gradient [0,10,0,0,-10]
    // -> smoothed [0,3,3,-3,-10], with (gradmin, gradmax) = (0,10) taken
    // from the unsmoothed magnitudes.
    let h: Vec<u32> = vec![0, 10, 10, 10, 0];
    let (smoothed, gradmin, gradmax) = histogram_gradient_of(&h);
    assert_eq!(smoothed, vec![0, 3, 3, -3, -10]);
    assert_eq!(gradmin, 0);
    assert_eq!(gradmax, 10);
}

#[test]
fn histogram_gradient_single_bin() {
    let h: Vec<u32> = vec![4];
    let (smoothed, gradmin, gradmax) = histogram_gradient_of(&h);
    assert_eq!(smoothed, vec![4]);
    assert_eq!(gradmin, 4);
    assert_eq!(gradmax, 4);
}

#[test]
fn histogram_gradient_two_bins() {
    let h: Vec<u32> = vec![3, 8];
    let (smoothed, gradmin, gradmax) = histogram_gradient_of(&h);
    // Both elements are endpoints: copied unsmoothed.
    assert_eq!(smoothed, vec![3, 5]);
    assert_eq!(gradmin, 3);
    assert_eq!(gradmax, 5);
}

#[test]
fn histogram_gradient_truncates_toward_zero() {
    // Interior average -10 / 3 truncates to -3, not -4.
    let h: Vec<u32> = vec![10, 10, 0, 0];
    let (smoothed, gradmin, gradmax) = histogram_gradient_of(&h);
    assert_eq!(smoothed, vec![10, 0, -3, 0]);
    assert_eq!(gradmin, 0);
    assert_eq!(gradmax, 10);
}

#[test]
fn sample_stats_counts_and_bounds() {
    let samples: Vec<u16> = vec![1, 3, 3, 0, 3, 1];
    let (hist, min, max) = sample_stats(&samples, 4);
    assert_eq!(hist, vec![1, 2, 0, 3]);
    assert_eq!(min, 0);
    assert_eq!(max, 3);
}

#[test]
fn sample_stats_empty() {
    let samples: Vec<u16> = vec![];
    let (hist, min, max) = sample_stats(&samples, 3);
    assert_eq!(hist, vec![0, 0, 0]);
    assert_eq!(min, u16::MAX);
    assert_eq!(max, 0);
}
