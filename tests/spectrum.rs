use prosic_stats::estimate::{effective_mutation_rate, DEFAULT_MAX_AF, DEFAULT_MIN_AF};
use prosic_stats::spectrum::{estimate, filter_window, AlleleFreq, EstimateError};

fn freqs(ppms: &[u32]) -> Vec<AlleleFreq> {
    ppms.iter().map(|&p| AlleleFreq::new(p).unwrap()).collect()
}

fn rate(num: i128, den: i128) -> f64 {
    num as f64 / den as f64 * 1e6
}

#[test]
fn recovers_rate_of_linear_spectrum() {
    // evenly spaced frequencies over [0.12, 0.25], as in the example of
    // Williams et al. (Nature Genetics 2016), whose fit gives a rate of 596.16
    let n = 2539;
    let fs: Vec<AlleleFreq> = (0..n)
        .map(|i| {
            let f = 0.12 + (0.25 - 0.12) * (i as f64) / ((n - 1) as f64);
            AlleleFreq::new((f * 1e6).round() as u32).unwrap()
        })
        .collect();
    let est = estimate(&fs).unwrap();
    let (num, den) = est.effective_mutation_rate();
    assert!((rate(num, den) - 596.16).abs() < 0.01);
}

#[test]
fn empty_input_fails() {
    assert_eq!(estimate(&Vec::new()).unwrap_err(), EstimateError::EmptyInput);
    let fs = freqs(&[50_000, 300_000]);
    assert_eq!(
        effective_mutation_rate(&fs, DEFAULT_MIN_AF, DEFAULT_MAX_AF).unwrap_err(),
        EstimateError::EmptyInput
    );
}

#[test]
fn zero_frequencies_stay_out_of_the_fit() {
    let est = estimate(&freqs(&[0, 200_000, 0, 250_000])).unwrap();
    assert_eq!(est.observations, vec![(250_000, 1), (200_000, 2)]);
    let plain = estimate(&freqs(&[200_000, 250_000])).unwrap();
    assert_eq!((est.slope_num, est.slope_den), (plain.slope_num, plain.slope_den));
    // a window of zeros alone is degenerate, not an error
    let est = effective_mutation_rate(&freqs(&[0, 100_000]), 0, 0).unwrap();
    assert!(est.observations.is_empty());
    assert_eq!((est.n_points, est.slope_num, est.slope_den), (0, 0, 0));
}

#[test]
fn equal_windows_give_equal_fits() {
    let a = effective_mutation_rate(&freqs(&[100_000, 150_000, 200_000, 220_000, 300_000]), 120_000, 250_000)
        .unwrap();
    let b = effective_mutation_rate(&freqs(&[150_000, 200_000, 220_000]), 120_000, 250_000).unwrap();
    assert_eq!(a.observations, b.observations);
    assert_eq!((a.slope_num, a.slope_den), (b.slope_num, b.slope_den));
    assert_eq!((a.n_points, a.sum_x, a.sum_y), (b.n_points, b.sum_x, b.sum_y));
}

#[test]
fn window_filter_and_deterministic_estimate() {
    let fs = freqs(&[100_000, 150_000, 200_000, 220_000, 300_000]);
    let w = filter_window(&fs, 120_000, 250_000);
    assert_eq!(w, freqs(&[150_000, 200_000, 220_000]));
    let a = effective_mutation_rate(&fs, 120_000, 250_000).unwrap();
    let b = effective_mutation_rate(&fs, 120_000, 250_000).unwrap();
    assert_eq!(a.observations, b.observations);
    assert_eq!((a.slope_num, a.slope_den), (b.slope_num, b.slope_den));
    assert_eq!(a.observations, vec![(220_000, 1), (200_000, 2), (150_000, 3)]);
    assert_eq!(a.slope_num, 6_363_636);
    assert_eq!(a.slope_den, 7_483_927_970_616);
    // abscissae 4545454, 5000000, 6666666
    assert_eq!((a.n_points, a.sum_x, a.sum_y), (3, 16_212_120, 6));
}

#[test]
fn two_point_fit_is_exact() {
    let est = estimate(&freqs(&[250_000, 125_000])).unwrap();
    assert_eq!(est.observations, vec![(250_000, 1), (125_000, 2)]);
    assert_eq!(est.effective_mutation_rate(), (4_000_000, 16_000_000_000_000));
    assert!((rate(est.slope_num, est.slope_den) - 0.25).abs() < 1e-12);
}

#[test]
fn equal_frequencies_form_one_point() {
    let est = estimate(&freqs(&[200_000, 200_000])).unwrap();
    assert_eq!(est.observations, vec![(200_000, 2)]);
    assert_eq!(est.effective_mutation_rate(), (0, 0));
}

#[test]
fn frequency_above_one_is_rejected() {
    assert_eq!(AlleleFreq::new(1_000_001), None);
    assert_eq!(AlleleFreq::new(1_000_000), Some(AlleleFreq { ppm: 1_000_000 }));
}

#[test]
fn exact_linear_spectrum_is_recovered() {
    // abscissae 2e6, 4e6, 5e6 with cumulative counts 1, 3, 4: y = x / 1e6 - 1,
    // a rate of one per unit of 1/f
    let est = estimate(&freqs(&[500_000, 250_000, 250_000, 200_000])).unwrap();
    assert_eq!(est.observations, vec![(500_000, 1), (250_000, 3), (200_000, 4)]);
    assert_eq!(est.slope_num * 1_000_000, est.slope_den);
    assert!((rate(est.slope_num, est.slope_den) - 1.0).abs() < 1e-12);
}
