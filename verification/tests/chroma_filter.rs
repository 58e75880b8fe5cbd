use chromaprint::chroma_filter::ChromaFilter;

fn ulps_eq(a: f64, b: f64) -> bool {
    if (a - b).abs() <= f64::EPSILON {
        return true;
    }
    if a.signum() != b.signum() {
        return false;
    }
    let distance = (a.to_bits() as i64 - b.to_bits() as i64).abs();
    distance <= 4
}

#[test]
fn blur2() {
    const COEFFICIENTS: [f64; 2] = [0.5, 0.5];
    let mut filter = ChromaFilter::new(COEFFICIENTS.to_vec(), 0.0);

    let d1 = [0.0, 5.0, 0.0, 0.0, 0.0, 0.0, 0.0, 0.0, 0.0, 0.0, 0.0, 0.0];
    let d2 = [1.0, 6.0, 0.0, 0.0, 0.0, 0.0, 0.0, 0.0, 0.0, 0.0, 0.0, 0.0];
    let d3 = [2.0, 7.0, 0.0, 0.0, 0.0, 0.0, 0.0, 0.0, 0.0, 0.0, 0.0, 0.0];

    assert_eq!(None, filter.handle_features(d1));
    let row1 = filter.handle_features(d2).unwrap();
    let row2 = filter.handle_features(d3).unwrap();

    assert_eq!(0.5, row1[0]);
    assert_eq!(1.5, row2[0]);
    assert_eq!(5.5, row1[1]);
    assert_eq!(6.5, row2[1]);
}

#[test]
fn blur3() {
    const COEFFICIENTS: [f64; 3] = [0.5, 0.7, 0.5];
    let mut filter = ChromaFilter::new(COEFFICIENTS.to_vec(), 0.0);

    let d1 = [0.0, 5.0, 0.0, 0.0, 0.0, 0.0, 0.0, 0.0, 0.0, 0.0, 0.0, 0.0];
    let d2 = [1.0, 6.0, 0.0, 0.0, 0.0, 0.0, 0.0, 0.0, 0.0, 0.0, 0.0, 0.0];
    let d3 = [2.0, 7.0, 0.0, 0.0, 0.0, 0.0, 0.0, 0.0, 0.0, 0.0, 0.0, 0.0];
    let d4 = [3.0, 8.0, 0.0, 0.0, 0.0, 0.0, 0.0, 0.0, 0.0, 0.0, 0.0, 0.0];

    assert_eq!(None, filter.handle_features(d1));
    assert_eq!(None, filter.handle_features(d2));
    let row1 = filter.handle_features(d3).unwrap();
    let row2 = filter.handle_features(d4).unwrap();

    assert!(ulps_eq(1.7, row1[0]));
    assert!(ulps_eq(3.399999999999999, row2[0]));
    assert!(ulps_eq(10.199999999999999, row1[1]));
    assert!(ulps_eq(11.899999999999999, row2[1]));
}

#[test]
fn diff() {
    const COEFFICIENTS: [f64; 2] = [1.0, -1.0];
    let mut filter = ChromaFilter::new(COEFFICIENTS.to_vec(), 0.0);

    let d1 = [0.0, 5.0, 0.0, 0.0, 0.0, 0.0, 0.0, 0.0, 0.0, 0.0, 0.0, 0.0];
    let d2 = [1.0, 6.0, 0.0, 0.0, 0.0, 0.0, 0.0, 0.0, 0.0, 0.0, 0.0, 0.0];
    let d3 = [2.0, 7.0, 0.0, 0.0, 0.0, 0.0, 0.0, 0.0, 0.0, 0.0, 0.0, 0.0];

    assert_eq!(None, filter.handle_features(d1));
    let row1 = filter.handle_features(d2).unwrap();
    let row2 = filter.handle_features(d3).unwrap();

    assert_eq!(-1.0, row1[0]);
    assert_eq!(-1.0, row2[0]);
    assert_eq!(-1.0, row1[1]);
    assert_eq!(-1.0, row2[1]);
}

fn row(first: u64) -> [u64; 12] {
    let mut row = [0u64; 12];
    for (col, entry) in row.iter_mut().enumerate() {
        *entry = first + col as u64;
    }
    row
}

#[test]
fn weighs_the_last_rows_oldest_first() {
    let mut filter = ChromaFilter::new(vec![1u64, 100, 10_000, 1_000_000, 100_000_000], 0);
    for first in 1..=4u64 {
        assert_eq!(None, filter.handle_features(row(first)));
    }
    let filtered = filter.handle_features(row(5)).unwrap();
    assert_eq!(filtered[0], 5_04_03_02_01);
    assert_eq!(filtered[11], 16_15_14_13_12);
    let filtered = filter.handle_features(row(6)).unwrap();
    assert_eq!(filtered[0], 6_05_04_03_02);
}

#[test]
fn weighs_on_when_the_ring_wraps_around() {
    let mut filter = ChromaFilter::new(vec![1u64, 100, 10_000, 1_000_000, 100_000_000], 0);
    let mut last = None;
    for first in 1..=30u64 {
        last = filter.handle_features(row(first));
    }
    assert_eq!(last.unwrap()[0], 30_29_28_27_26);
}

#[test]
fn filter_of_one_tap_starts_at_once() {
    let mut filter = ChromaFilter::new(vec![3u64], 0);
    assert_eq!(filter.handle_features(row(7)).unwrap()[0], 21);
    assert_eq!(filter.handle_features(row(8)).unwrap()[1], 27);
}

#[test]
fn filter_may_be_as_long_as_the_ring() {
    let coefficients = vec![1u64, 10, 100, 1000, 10_000, 100_000, 1_000_000, 10_000_000];
    let mut filter = ChromaFilter::new(coefficients, 0);
    for first in 1..=7u64 {
        assert_eq!(None, filter.handle_features(row(first)));
    }
    assert_eq!(filter.handle_features(row(8)).unwrap()[0], 87_654_321);
    assert_eq!(filter.handle_features(row(9)).unwrap()[0], 98_765_432);
}
