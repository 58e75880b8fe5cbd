use chromaprint::rolling_integral_image::RollingIntegralImage;

#[test]
fn test_all() {
    let mut image = RollingIntegralImage::new(4, 0.0);
    image.add_row([1.0, 2.0, 3.0, 0.0, 0.0, 0.0, 0.0, 0.0, 0.0, 0.0, 0.0, 0.0]);

    assert_eq!(1, image.rows());

    assert_eq!(1.0, image.area(0, 0, 1, 1));
    assert_eq!(2.0, image.area(0, 1, 1, 2));
    assert_eq!(3.0, image.area(0, 2, 1, 3));
    assert_eq!(1.0 + 2.0 + 3.0, image.area(0, 0, 1, 3));

    image.add_row([4.0, 5.0, 6.0, 0.0, 0.0, 0.0, 0.0, 0.0, 0.0, 0.0, 0.0, 0.0]);
    assert_eq!(2, image.rows());

    assert_eq!(4.0, image.area(1, 0, 2, 1));
    assert_eq!(5.0, image.area(1, 1, 2, 2));
    assert_eq!(6.0, image.area(1, 2, 2, 3));
    assert_eq!(1.0 + 2.0 + 3.0 + 4.0 + 5.0 + 6.0, image.area(0, 0, 2, 3));

    image.add_row([7.0, 8.0, 9.0, 0.0, 0.0, 0.0, 0.0, 0.0, 0.0, 0.0, 0.0, 0.0]);
    assert_eq!(3, image.rows());

    image.add_row([
        10.0, 11.0, 12.0, 0.0, 0.0, 0.0, 0.0, 0.0, 0.0, 0.0, 0.0, 0.0,
    ]);
    assert_eq!(4, image.rows());

    image.add_row([
        13.0, 14.0, 15.0, 0.0, 0.0, 0.0, 0.0, 0.0, 0.0, 0.0, 0.0, 0.0,
    ]);
    assert_eq!(5, image.rows());

    assert_eq!(4.0, image.area(1, 0, 2, 1));
    assert_eq!(5.0, image.area(1, 1, 2, 2));
    assert_eq!(6.0, image.area(1, 2, 2, 3));
    assert_eq!(13.0, image.area(4, 0, 5, 1));
    assert_eq!(14.0, image.area(4, 1, 5, 2));
    assert_eq!(15.0, image.area(4, 2, 5, 3));
    assert_eq!(
        ((4 + 5 + 6) + (7 + 8 + 9) + (10 + 11 + 12) + (13 + 14 + 15)) as f64,
        image.area(1, 0, 5, 3)
    );

    image.add_row([
        16.0, 17.0, 18.0, 0.0, 0.0, 0.0, 0.0, 0.0, 0.0, 0.0, 0.0, 0.0,
    ]);
    assert_eq!(6, image.rows());

    assert_eq!(7.0, image.area(2, 0, 3, 1));
    assert_eq!(8.0, image.area(2, 1, 3, 2));
    assert_eq!(9.0, image.area(2, 2, 3, 3));
    assert_eq!(16.0, image.area(5, 0, 6, 1));
    assert_eq!(17.0, image.area(5, 1, 6, 2));
    assert_eq!(18.0, image.area(5, 2, 6, 3));
    assert_eq!(
        ((7 + 8 + 9) + (10 + 11 + 12) + (13 + 14 + 15) + (16 + 17 + 18)) as f64,
        image.area(2, 0, 6, 3)
    );
}

fn cell(row: usize, col: usize) -> i64 {
    ((row * 31 + col * 7) % 23) as i64 - 11
}

fn row(row: usize) -> [i64; 12] {
    let mut cells = [0i64; 12];
    for (col, entry) in cells.iter_mut().enumerate() {
        *entry = cell(row, col);
    }
    cells
}

#[test]
fn image_starts_empty() {
    let image: RollingIntegralImage<i64> = RollingIntegralImage::new(3, 0);
    assert_eq!(image.rows(), 0);
    assert_eq!(image.zero_value(), 0);
    assert_eq!(image.area(0, 0, 0, 5), 0);
}

#[test]
fn area_without_rows_or_columns_is_nothing() {
    let mut image = RollingIntegralImage::new(3, 0i64);
    image.add_row(row(0));
    image.add_row(row(1));
    assert_eq!(image.area(1, 3, 1, 9), 0);
    assert_eq!(image.area(0, 4, 2, 4), 0);
}

#[test]
fn area_is_the_sum_of_the_cells() {
    let mut image = RollingIntegralImage::new(5, 0i64);
    for count in 1..=20usize {
        image.add_row(row(count - 1));
        assert_eq!(image.rows(), count);
        // The rows before a rectangle have to be in the ring as well.
        let oldest = if count <= 6 { 0 } else { count - 5 };
        for row1 in oldest..=count {
            for row2 in row1..=count {
                for col1 in 0..=12usize {
                    for col2 in col1..=12usize {
                        let mut sum = 0;
                        for r in row1..row2 {
                            for c in col1..col2 {
                                sum += cell(r, c);
                            }
                        }
                        assert_eq!(image.area(row1, col1, row2, col2), sum);
                    }
                }
            }
        }
    }
}

#[test]
fn area_from_the_first_row_counts_all_rows() {
    let mut image = RollingIntegralImage::new(2, 0i64);
    let mut total = 0;
    for count in 1..=10usize {
        image.add_row(row(count - 1));
        total += cell(count - 1, 0) + cell(count - 1, 1);
        assert_eq!(image.area(0, 0, count, 2), total);
    }
}
