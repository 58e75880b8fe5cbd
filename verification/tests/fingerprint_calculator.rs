use chromaprint::classifiers::get_default_classifier;
use chromaprint::filter::Filter;
use chromaprint::fingerprint_calculator::gray_code;
use chromaprint::fingerprint_calculator::FingerprintCalculator;
use chromaprint::quantizer::Quantizer;

/// The default filters, with quantizers that part the answers at 1, 2 and 3.
fn plain_classifiers() -> [(Filter, Quantizer<i64>); 16] {
    get_default_classifier().map(|(filter, _)| (filter, Quantizer::new(1, 2, 3)))
}

fn cell(row: usize, col: usize) -> i64 {
    ((row * 13 + col * 11) % 19) as i64
}

fn row(row: usize) -> [i64; 12] {
    let mut cells = [0i64; 12];
    for (col, entry) in cells.iter_mut().enumerate() {
        *entry = cell(row, col);
    }
    cells
}

#[test]
fn gray_code_of_each_level() {
    assert_eq!(gray_code(0), 0);
    assert_eq!(gray_code(1), 1);
    assert_eq!(gray_code(2), 3);
    assert_eq!(gray_code(3), 2);
}

#[test]
fn gray_code_of_anything_else_is_zero() {
    assert_eq!(gray_code(4), 0);
    assert_eq!(gray_code(255), 0);
}

#[test]
fn no_subfingerprint_before_sixteen_rows() {
    let mut calculator = FingerprintCalculator::new(plain_classifiers(), 0, 1);
    for count in 0..15 {
        calculator.consume(row(count), &|_| 1);
        assert!(calculator.fingerprint().is_empty());
    }
    assert_eq!(calculator.rows(), 15);
    calculator.consume(row(15), &|_| 1);
    assert_eq!(calculator.rows(), 16);
    assert_eq!(calculator.fingerprint().len(), 1);
}

#[test]
fn one_subfingerprint_for_every_row_after() {
    let mut calculator = FingerprintCalculator::new(plain_classifiers(), 0, 1);
    for count in 1..=600usize {
        calculator.consume(row(count), &|ratio| ratio);
        assert_eq!(calculator.fingerprint().len(), count.saturating_sub(15));
    }
}

#[test]
fn levels_are_packed_first_classifier_highest() {
    // All answers are 5; only the quantizer of one classifier lets that be a
    // level above 0.
    let mut classifiers =
        get_default_classifier().map(|(filter, _)| (filter, Quantizer::new(6, 7, 8)));
    classifiers[0].1 = Quantizer::new(1, 2, 5);
    let mut calculator = FingerprintCalculator::new(classifiers, 0i64, 1);
    for count in 0..16 {
        calculator.consume(row(count), &|_| 5);
    }
    assert_eq!(calculator.fingerprint(), &[0x8000_0000u32][..]);

    let mut classifiers =
        get_default_classifier().map(|(filter, _)| (filter, Quantizer::new(6, 7, 8)));
    classifiers[15].1 = Quantizer::new(1, 5, 8);
    let mut calculator = FingerprintCalculator::new(classifiers, 0i64, 1);
    for count in 0..16 {
        calculator.consume(row(count), &|_| 5);
    }
    assert_eq!(calculator.fingerprint(), &[3u32][..]);
}

#[test]
fn levels_go_through_the_gray_code() {
    let mut index = 0;
    let classifiers = get_default_classifier().map(|(filter, _)| {
        let quantizer = match index % 4 {
            0 => Quantizer::new(6, 7, 8),
            1 => Quantizer::new(5, 7, 8),
            2 => Quantizer::new(1, 5, 8),
            _ => Quantizer::new(1, 2, 5),
        };
        index += 1;
        (filter, quantizer)
    });
    let mut calculator = FingerprintCalculator::new(classifiers, 0i64, 1);
    for count in 0..16 {
        calculator.consume(row(count), &|_| 5);
    }
    // Levels 0, 1, 2, 3 repeat; their codes 0, 1, 3, 2 make the byte 0b00_01_11_10.
    assert_eq!(calculator.fingerprint(), &[0x1e1e_1e1eu32][..]);
}

#[test]
fn answers_may_be_fractions() {
    let classifiers =
        get_default_classifier().map(|(filter, _)| (filter, Quantizer::new(0.0f64, 0.1, 0.3)));
    let mut calculator = FingerprintCalculator::new(classifiers, 0.0, 1.0);
    for _ in 0..16 {
        calculator.consume([0.25; 12], &|ratio: f64| ratio.ln());
    }
    assert_eq!(calculator.fingerprint().len(), 1);
}

/// The sum of the cells in the rows `rows` and the columns `cols`.
fn sum(rows: std::ops::Range<usize>, cols: std::ops::Range<usize>) -> i64 {
    let mut sum = 0;
    for row in rows {
        for col in cols.clone() {
            sum += cell(row, col);
        }
    }
    sum
}

/// What the filter of the shape `type_id` counts for itself and what it
/// counts against itself, cell by cell.
fn sums(type_id: u8, x: usize, y: usize, w: usize, h: usize) -> (i64, i64) {
    let (w2, h2) = (w / 2, h / 2);
    match type_id {
        0 => (sum(x..x + w, y..y + h), 0),
        1 => (sum(x..x + w, y + h2..y + h), sum(x..x + w, y..y + h2)),
        2 => (sum(x + w2..x + w, y..y + h), sum(x..x + w2, y..y + h)),
        3 => (
            sum(x..x + w2, y + h2..y + h) + sum(x + w2..x + w, y..y + h2),
            sum(x..x + w2, y..y + h2) + sum(x + w2..x + w, y + h2..y + h),
        ),
        4 => (
            sum(x..x + w, y + h2..y + 2 * h2),
            sum(x..x + w, y..y + h2) + sum(x..x + w, y + 2 * h2..y + h),
        ),
        _ => (
            sum(x + w2..x + 2 * w2, y..y + h),
            sum(x..x + w2, y..y + h) + sum(x + 2 * w2..x + w, y..y + h),
        ),
    }
}

#[test]
fn subfingerprint_belongs_to_the_last_sixteen_rows() {
    let filters = get_default_classifier().map(|(filter, _)| filter);
    let classifiers = filters.map(|filter| (filter, Quantizer::new(1i64, 2, 4)));
    let mut calculator = FingerprintCalculator::new(classifiers, 0, 1);
    for count in 1..=300usize {
        // The ratio itself stands for its logarithm.
        calculator.consume(row(count - 1), &|ratio| ratio);
        if count < 16 {
            continue;
        }
        let offset = count - 16;
        let mut expected = 0u32;
        for filter in filters.iter() {
            let (a, b) =
                sums(filter.type_id(), offset, filter.y(), filter.width(), filter.height());
            let value = (1 + a) / (1 + b);
            let level = if value < 1 {
                0
            } else if value < 2 {
                1
            } else if value < 4 {
                2
            } else {
                3
            };
            expected = (expected << 2) | [0u32, 1, 3, 2][level];
        }
        assert_eq!(calculator.fingerprint()[offset], expected);
    }
}

#[test]
fn calculate_subfingerprint_leaves_the_calculator_alone() {
    let mut calculator = FingerprintCalculator::new(plain_classifiers(), 0, 1);
    for count in 0..16 {
        calculator.consume(row(count), &|_| 0);
    }
    let bits = calculator.calculate_subfingerprint(&|_| 1);
    assert_eq!(bits, 0x5555_5555);
    assert_eq!(calculator.rows(), 16);
    assert_eq!(calculator.fingerprint(), &[0u32][..]);
}
