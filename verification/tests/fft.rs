use chromaprint::fft::fold_output;

#[test]
fn power_spectrum_is_one_sided() {
    let bins: Vec<(i32, i32)> = vec![(3, 4), (1, -1), (0, 2), (-5, 0), (6, 8), (9, 9)];
    assert_eq!(fold_output(&bins), vec![25, 2, 4, 25]);
}

#[test]
fn power_spectrum_of_a_frame_has_one_bin_more_than_half() {
    let bins = vec![(1.5f64, 2.0f64); 4096];
    let spectrum = fold_output(&bins);
    assert_eq!(spectrum.len(), 2049);
    assert!(spectrum.iter().all(|power| *power == 6.25));
}

#[test]
fn power_spectrum_of_a_single_bin() {
    assert_eq!(fold_output(&[(2u8, 3u8)]), vec![13]);
}
