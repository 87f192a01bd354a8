use veeduria::{exceeds_critical_value, tally_first_digits};

fn leading_digit(value: f64) -> Option<u8> {
    if value <= 0.0 {
        return None;
    }
    let first = value / 10_f64.powf(value.log10().floor());
    Some(first as u8)
}

#[test]
fn test_benford_uniform() {
    let uniform: Vec<f64> = (1..=9).map(|d| d as f64 * 100.0).collect();
    let digits: Vec<Option<u8>> = uniform.iter().map(|&v| leading_digit(v)).collect();
    let result = tally_first_digits(&digits);
    assert!(result.sample_size > 0);
    assert_eq!(result.digit_counts, [1; 9]);
}

#[test]
fn empty_series_is_not_anomalous() {
    let tally = tally_first_digits(&vec![]);
    assert_eq!(tally.sample_size, 0);
    assert_eq!(tally.digit_counts, [0; 9]);
    assert!(!tally.is_anomalous());
}

#[test]
fn missing_and_out_of_range_digits_are_left_out() {
    let tally = tally_first_digits(&vec![None, Some(0), Some(10), Some(3), Some(3), Some(9)]);
    assert_eq!(tally.sample_size, 3);
    assert_eq!(tally.digit_counts, [0, 0, 2, 0, 0, 0, 0, 0, 1]);
}

fn chi_squared(counts: &[u32; 9], n: u32) -> f64 {
    let expected = [0.301, 0.176, 0.125, 0.097, 0.079, 0.067, 0.058, 0.051, 0.046];
    counts
        .iter()
        .zip(expected.iter())
        .map(|(&c, &e)| {
            let ex = e * n as f64;
            (c as f64 - ex).powi(2) / ex
        })
        .sum()
}

#[test]
fn uniform_large_sample_is_anomalous() {
    let counts = [100u32; 9];
    assert!(chi_squared(&counts, 900) > 15.507);
    assert!(exceeds_critical_value(&counts, 900));
}

#[test]
fn benford_shaped_sample_is_not_anomalous() {
    let counts = [301u32, 176, 125, 97, 79, 67, 58, 51, 46];
    assert_eq!(counts.iter().sum::<u32>(), 1000);
    assert!(!exceeds_critical_value(&counts, 1000));
}

#[test]
fn decision_agrees_with_the_statistic_near_the_critical_value() {
    for shift in 0..60u32 {
        let counts = [301 + shift, 176, 125, 97, 79, 67, 58, 51 - shift.min(51), 46];
        let n: u32 = counts.iter().sum();
        let chi = chi_squared(&counts, n);
        if (chi - 15.507).abs() > 1e-9 {
            assert_eq!(exceeds_critical_value(&counts, n), chi > 15.507, "shift {}", shift);
        }
    }
}
