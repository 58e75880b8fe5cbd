use chromaprint::chroma_normalize::euclidean_norm;
use chromaprint::chroma_normalize::normalize_vector;

fn sqrt(squares: f64) -> f64 {
    squares.sqrt()
}

fn ulps_eq(a: f64, b: f64, epsilon: f64) -> bool {
    if (a - b).abs() <= epsilon {
        return true;
    }
    if a.signum() != b.signum() {
        return false;
    }
    let distance = (a.to_bits() as i64 - b.to_bits() as i64).abs();
    distance <= 4
}

#[test]
fn test_euclidean_norm() {
    let data = [0.1, 0.2, 0.4, 1.0, 0.0, 0.0, 0.0, 0.0, 0.0, 0.0, 0.0, 0.0];
    assert_eq!(euclidean_norm(&data, 0.0, &sqrt), 1.1);
}

#[test]
fn test_normalize_vector() {
    let data = [0.1, 0.2, 0.4, 1.0, 0.0, 0.0, 0.0, 0.0, 0.0, 0.0, 0.0, 0.0];
    let expected = [
        0.090909, 0.181818, 0.363636, 0.909091, 0.0, 0.0, 0.0, 0.0, 0.0, 0.0, 0.0, 0.0,
    ];

    let got = normalize_vector(data, 0.0, 0.01, &sqrt);

    for idx in 0..12 {
        assert!(ulps_eq(got[idx], expected[idx], 1e-5));
    }
}

#[test]
fn test_normalize_vector_near_zero() {
    let data = [
        0.0, 0.001, 0.002, 0.003, 0.0, 0.0, 0.0, 0.0, 0.0, 0.0, 0.0, 0.0,
    ];
    let expected = [0.0f64; 12];

    assert_eq!(normalize_vector(data, 0.0, 0.01, &sqrt), expected);
}

#[test]
fn test_normalize_vector_zero() {
    let data = [0.0f64; 12];
    let expected = [0.0f64; 12];

    assert_eq!(normalize_vector(data, 0.0, 0.01, &sqrt), expected);
}

#[test]
fn normalized_vector_has_the_length_one() {
    let data = [3.0, 0.0, 4.0, 0.0, 0.0, 12.0, 0.0, 0.0, 0.0, 0.0, 0.0, 0.0];
    assert_eq!(euclidean_norm(&data, 0.0, &sqrt), 13.0);
    let normalized = normalize_vector(data, 0.0, 0.01, &sqrt);
    assert!((euclidean_norm(&normalized, 0.0, &sqrt) - 1.0).abs() < 1e-12);
    assert_eq!(normalized[0], 3.0 / 13.0);
    assert_eq!(normalized[2], 4.0 / 13.0);
    assert_eq!(normalized[5], 12.0 / 13.0);
}

#[test]
fn norm_at_the_limit_is_kept() {
    let mut data = [0.0f64; 12];
    data[4] = 0.01;
    let normalized = normalize_vector(data, 0.0, 0.01, &sqrt);
    assert_eq!(normalized[4], 1.0);
    data[4] = 0.0099;
    assert_eq!(normalize_vector(data, 0.0, 0.01, &sqrt), [0.0; 12]);
}

#[test]
fn norm_of_whole_numbers() {
    // With a square root in whole numbers, rounded down.
    let root = |squares: u64| (squares as f64).sqrt() as u64;
    let data = [2u64, 3, 6, 0, 0, 0, 0, 0, 0, 0, 0, 0];
    assert_eq!(euclidean_norm(&data, 0, &root), 7);
    let single = [0u64, 5, 0, 0, 0, 0, 0, 0, 0, 0, 0, 0];
    assert_eq!(
        normalize_vector(single, 0, 5, &root),
        [0, 1, 0, 0, 0, 0, 0, 0, 0, 0, 0, 0]
    );
    assert_eq!(normalize_vector(single, 0, 6, &root), [0; 12]);
}
