use chromaprint::classifiers::get_default_classifier;
use chromaprint::classifiers::THRESHOLD_SCALE;
use chromaprint::filter::Filter;

fn table() -> [(u8, usize, usize, usize, f64, f64, f64); 16] {
    [
        (0, 4, 3, 15, 1.98215, 2.35817, 2.63523),
        (4, 4, 6, 15, -1.03809, -0.651211, -0.282167),
        (1, 0, 4, 16, -0.298702, 0.119262, 0.558497),
        (3, 8, 2, 12, -0.105439, 0.0153946, 0.135898),
        (3, 4, 4, 8, -0.142891, 0.0258736, 0.200632),
        (4, 0, 3, 5, -0.826319, -0.590612, -0.368214),
        (1, 2, 2, 9, -0.557409, -0.233035, 0.0534525),
        (2, 7, 3, 4, -0.0646826, 0.00620476, 0.0784847),
        (2, 6, 2, 16, -0.192387, -0.029699, 0.215855),
        (2, 1, 3, 2, -0.0397818, -0.00568076, 0.0292026),
        (5, 10, 1, 15, -0.53823, -0.369934, -0.190235),
        (3, 6, 2, 10, -0.124877, 0.0296483, 0.139239),
        (2, 1, 1, 14, -0.101475, 0.0225617, 0.231971),
        (3, 5, 6, 4, -0.0799915, -0.00729616, 0.063262),
        (1, 9, 2, 12, -0.272556, 0.019424, 0.302559),
        (3, 4, 2, 14, -0.164292, -0.0321188, 0.0846339),
    ]
}

#[test]
fn default_filters_are_the_table() {
    let classifiers = get_default_classifier();
    let table = table();
    for ((filter, _), entry) in classifiers.iter().zip(table.iter()) {
        let (type_id, y, height, width, _, _, _) = entry;
        assert_eq!(*filter, Filter::new(*type_id, *y, *height, *width));
    }
}

#[test]
fn default_thresholds_are_the_table() {
    let classifiers = get_default_classifier();
    let scale = THRESHOLD_SCALE as f64;
    for ((_, quantizer), (_, _, _, _, t0, t1, t2)) in classifiers.iter().zip(table().iter()) {
        assert_eq!(quantizer.t0() as f64 / scale, *t0);
        assert_eq!(quantizer.t1() as f64 / scale, *t1);
        assert_eq!(quantizer.t2() as f64 / scale, *t2);
    }
}

#[test]
fn default_thresholds_rise() {
    for (_, quantizer) in get_default_classifier().iter() {
        assert!(quantizer.t0() < quantizer.t1());
        assert!(quantizer.t1() < quantizer.t2());
    }
}

#[test]
fn default_filters_stay_inside_the_image() {
    for (filter, _) in get_default_classifier().iter() {
        assert!(filter.type_id() <= 5);
        assert!(filter.width() <= 16);
        assert!(filter.y() + filter.height() <= 12);
    }
}

#[test]
fn first_classifier_quantizes_in_hundred_millionths() {
    let classifiers = get_default_classifier();
    let quantizer = &classifiers[0].1;
    assert_eq!(quantizer.quantize(198_214_999), 0);
    assert_eq!(quantizer.quantize(198_215_000), 1);
    assert_eq!(quantizer.quantize(235_817_000), 2);
    assert_eq!(quantizer.quantize(263_523_000), 3);
}
