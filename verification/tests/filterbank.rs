use itertools_num::linspace;
use mel::{enumerate_mel_scaling_matrix_base, shape_is_valid, Coefficient};
use num::FromPrimitive;

fn mel_from_hertz(hertz: f64) -> f64 {
    2595. * (1. + hertz / 700.).log10()
}

fn hertz_from_mel(mel: f64) -> f64 {
    700. * ((10f64).powf(mel / 2595.) - 1.)
}

fn breakpoint_columns(
    sample_rate: usize,
    window_size: usize,
    input_size: usize,
    output_size: usize,
) -> Vec<usize> {
    let min_hertz = hertz::rayleigh(
        <f64>::from_usize(sample_rate).unwrap(),
        <f64>::from_usize(window_size).unwrap(),
    );
    let max_hertz = hertz::nyquist(<f64>::from_usize(sample_rate).unwrap());
    assert!(0. < min_hertz);
    assert!(min_hertz < max_hertz);
    linspace(mel_from_hertz(min_hertz), mel_from_hertz(max_hertz), output_size + 2)
        .map(|mel| {
            let hertz = hertz_from_mel(mel);
            <usize>::from_f64((hertz / max_hertz * <f64>::from_usize(input_size).unwrap()).floor())
                .unwrap()
        })
        .collect()
}


fn filterbank(
    sample_rate: usize,
    window_size: usize,
    input_size: usize,
    output_size: usize,
) -> Vec<(usize, usize, f64)> {
    let breakpoints = breakpoint_columns(sample_rate, window_size, input_size, output_size);
    assert!(shape_is_valid(input_size, output_size, breakpoints.len()));
    let mut enumerator = enumerate_mel_scaling_matrix_base(input_size, output_size, breakpoints);
    let mut window_row = 0;
    let mut window_iter = apodize::triangular_iter(enumerator.current_window_length());
    let mut triples = Vec::new();
    while let Some((row, col, coefficient)) = enumerator.next() {
        if row != window_row {
            window_iter = apodize::triangular_iter(enumerator.current_window_length());
            window_row = row;
        }
        let value = match coefficient {
            Coefficient::Zero => 0.,
            Coefficient::Weight { length, .. } => match window_iter.next() {
                Some(weight) => weight / <f64>::from_usize(length).unwrap(),
                None => 0.,
            },
        };
        triples.push((row, col, value));
    }
    assert!(enumerator.is_done());
    triples
}

#[test]
fn test_enumerate_mel_scaling_matrix() {
    let sample_rate = 44100;
    let window_size = 16;
    let power_spectrum_size = window_size / 2;
    let filter_count = 4;

    let mut actual = vec![0.; filter_count * power_spectrum_size];

    for (row, col, coefficient) in
        filterbank(sample_rate, window_size, power_spectrum_size, filter_count)
    {
        actual[row * power_spectrum_size + col] = coefficient;
    }

    let expected = vec![
        0., 1., 0., 0., 0., 0., 0., 0.,
        0., 0.25, 0.25, 0., 0., 0., 0., 0.,
        0., 0., 0.11111111111111112, 0.3333333333333333, 0.11111111111111112, 0., 0., 0.,
        0., 0., 0., 0.039999999999999994, 0.12, 0.2, 0.12, 0.039999999999999994,
    ];

    assert_eq!(expected.len(), actual.len());
    for (expected, actual) in expected.iter().zip(actual.iter()) {
        assert!(
            approx::Relative::default().eq(expected, actual),
            "expected {} but got {}",
            expected,
            actual
        );
    }
}

#[test]
fn breakpoints_of_the_sixteen_sample_window() {
    assert_eq!(breakpoint_columns(44100, 16, 8, 4), vec![1, 1, 2, 3, 5, 8]);
}

#[test]
fn filterbank_is_row_major_with_every_cell() {
    let triples = filterbank(44100, 4096, 2048, 100);
    assert_eq!(triples.len(), 2048 * 100);
    for (k, (row, col, _)) in triples.iter().enumerate() {
        assert_eq!(*row, k / 2048);
        assert_eq!(*col, k % 2048);
    }
}

#[test]
fn filterbank_rows_have_one_nonzero_run() {
    let input_size = 64;
    let output_size = 12;
    let triples = filterbank(44100, 128, input_size, output_size);
    for row in 0..output_size {
        let values: Vec<f64> = triples[row * input_size..(row + 1) * input_size]
            .iter()
            .map(|triple| triple.2)
            .collect();
        let mut runs = 0;
        let mut inside = false;
        for value in values {
            if value != 0. && !inside {
                runs += 1;
            }
            inside = value != 0.;
        }
        assert_eq!(runs, 1);
    }
}

#[test]
fn filterbank_with_one_row_less_than_columns() {
    let input_size = 8;
    let output_size = input_size - 1;
    let triples = filterbank(44100, 16, input_size, output_size);
    assert_eq!(triples.len(), input_size * output_size);
}
