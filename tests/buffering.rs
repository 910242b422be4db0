use playdsp::buffering::{
    chunk, deinterleave, flatten, float_output_format, interleave, meaningful_len, reassemble,
    unflatten, FloatFormat,
};

fn ramp(channels: usize, samples: usize) -> Vec<Vec<f64>> {
    (0..channels)
        .map(|c| (0..samples).map(|i| (c * 100_000 + i) as f64 * 0.5 - 3.25).collect())
        .collect()
}

#[test]
fn round_trip_small_window() {
    let m = ramp(3, 10);
    for w in 1..13 {
        let bufs = chunk(&m, w, 0.0);
        let back = reassemble(&bufs, w, 10, 3, 0.0);
        assert_eq!(back, m);
    }
}

#[test]
fn round_trip_keeps_bits() {
    let m = vec![vec![f64::MIN_POSITIVE, -0.0, 1.0e308, 0.1 + 0.2]];
    let bufs = chunk(&m, 3, 7.0);
    let back = reassemble(&bufs, 3, 4, 1, 0.0);
    for (a, b) in back[0].iter().zip(m[0].iter()) {
        assert_eq!(a.to_bits(), b.to_bits());
    }
}

#[test]
fn stereo_five_thousand_in_three_windows() {
    let m = ramp(2, 5000);
    let bufs = chunk(&m, 2048, 0.0);
    assert_eq!(bufs.len(), 3);
    for b in &bufs {
        assert_eq!(b.len(), 2);
        assert_eq!(b[0].len(), 2048);
        assert_eq!(b[1].len(), 2048);
    }
    assert_eq!(meaningful_len(5000, 2048, 0), 2048);
    assert_eq!(meaningful_len(5000, 2048, 1), 2048);
    assert_eq!(meaningful_len(5000, 2048, 2), 904);
    assert_eq!(meaningful_len(5000, 2048, 3), 0);
    assert_eq!(bufs[2][1][903], m[1][4999]);
    assert_eq!(bufs[2][1][904], 0.0);
    let processed: Vec<Vec<Vec<f64>>> = bufs.iter().map(|b| b.clone()).collect();
    let back = reassemble(&processed, 2048, 5000, 2, 0.0);
    assert_eq!(back, m);
}

#[test]
fn padding_is_not_written_back() {
    let m = vec![vec![1, 2, 3, 4, 5]];
    let mut bufs = chunk(&m, 4, 0);
    assert_eq!(bufs, vec![vec![vec![1, 2, 3, 4]], vec![vec![5, 0, 0, 0]]]);
    bufs[1][0][3] = 99;
    assert_eq!(reassemble(&bufs, 4, 5, 1, 0), m);
}

#[test]
fn empty_matrix_has_no_windows() {
    let m: Vec<Vec<i32>> = vec![vec![], vec![]];
    assert!(chunk(&m, 8, 0).is_empty());
    let none: Vec<Vec<i32>> = vec![];
    assert!(chunk(&none, 8, 0).is_empty());
    assert_eq!(reassemble::<i32>(&vec![], 8, 0, 2, 0), m);
}

#[test]
fn missing_windows_read_as_fill() {
    let bufs = vec![vec![vec![1, 2]]];
    assert_eq!(reassemble(&bufs, 2, 5, 1, -1), vec![vec![1, 2, -1, -1, -1]]);
}

#[test]
fn exact_multiple_of_window() {
    let m = ramp(1, 4096);
    let bufs = chunk(&m, 2048, 0.0);
    assert_eq!(bufs.len(), 2);
    assert_eq!(meaningful_len(4096, 2048, 1), 2048);
}

#[test]
fn flat_layout_is_channel_major() {
    let b = vec![vec![1, 2, 3], vec![4, 5, 6]];
    let flat = flatten(&b, 3);
    assert_eq!(flat, vec![1, 2, 3, 4, 5, 6]);
    assert_eq!(unflatten(&flat, 2, 3), b);
}

#[test]
fn frames_are_interleaved() {
    let m = vec![vec![1, 2, 3], vec![4, 5, 6]];
    let frames = interleave(&m, 3);
    assert_eq!(frames, vec![1, 4, 2, 5, 3, 6]);
    assert_eq!(deinterleave(&frames, 2, 3), m);
}

#[test]
fn float_format_for_stereo() {
    let f = float_output_format(2, 44100).unwrap();
    assert_eq!(
        f,
        FloatFormat {
            channel_count: 2,
            sample_rate: 44100,
            bytes_per_second: 352800,
            block_alignment: 8,
            bits_per_sample: 32,
        }
    );
}

#[test]
fn float_format_too_wide() {
    assert_eq!(float_output_format(16384, 48000), None);
    assert_eq!(float_output_format(16383, 70000), None);
    assert!(float_output_format(16383, 65537).is_some());
}
