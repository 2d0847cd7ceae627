use rhythm_pi_charter::chart::onsets_ok_for;
use rhythm_pi_charter::flux::spectrogram_fits;
use rhythm_pi_charter::holds::{spectra_fit, SpectrumSample};
use rhythm_pi_charter::hq::{hq_levels, hq_notes};
use rhythm_pi_charter::quantizer::Quantizer;
use rhythm_pi_charter::spectrogram::Spectrogram;

#[test]
fn hq_notes_snap_onsets_and_pick_lanes_by_grid_index() {
    // 120 BPM with 4 grid points per beat: points every 125 ms
    let notes = hq_notes(&vec![0, 130_000, 370_000, 1_000_000], 120_000, 4, 4, 2_000_000);
    let got: Vec<(u64, u8)> = notes.iter().map(|n| (n.time, n.col)).collect();
    assert_eq!(got, vec![(0, 0), (125_000, 1), (375_000, 3), (1_000_000, 0)]);
    let five = hq_notes(&vec![750_000], 120_000, 4, 5, 2_000_000);
    assert_eq!((five[0].time, five[0].col), (750_000, 1));
}

#[test]
fn hq_notes_fall_back_to_beats() {
    let notes = hq_notes(&vec![], 120_000, 4, 4, 1_600_000);
    let got: Vec<(u64, u8)> = notes.iter().map(|n| (n.time, n.col)).collect();
    assert_eq!(got, vec![(0, 0), (500_000, 1), (1_000_000, 2), (1_500_000, 3)]);
    assert!(hq_notes(&vec![], 120_000, 4, 4, 0).is_empty());
}

#[test]
fn hq_level_table() {
    let levels = hq_levels();
    let got: Vec<(&str, u8, u8)> = levels.iter().map(|l| (l.name, l.grid_division, l.columns)).collect();
    assert_eq!(got, vec![("Easy", 4, 4), ("Normal", 8, 4), ("Hard", 16, 5)]);
}

#[test]
fn nearest_grid_index() {
    let q = Quantizer::new(120_000, 44100, 4);
    assert_eq!(q.nearest_index(0), 0);
    assert_eq!(q.nearest_index(1_060_000), 8);
    assert_eq!(q.nearest_index(1_070_000), 9);
}

#[test]
fn precondition_checks() {
    assert!(onsets_ok_for(&vec![0, 5, 5, 9]));
    assert!(!onsets_ok_for(&vec![0, 5, 4]));
    assert!(!onsets_ok_for(&vec![u64::MAX]));
    assert!(onsets_ok_for(&vec![]));
    let s = Spectrogram::from_frames(&vec![vec![1, 2], vec![3, 4]]);
    assert!(spectrogram_fits(&s, 44100, 512));
    assert!(!spectrogram_fits(&s, 0, 512));
    assert!(Spectrogram::frames_fit(&vec![vec![1, 2], vec![3, 4]]));
    assert!(!Spectrogram::frames_fit(&vec![vec![1, 2], vec![3]]));
}

#[test]
fn spectrogram_to_hundred_hertz_samples() {
    // 16-point transform at 1600 Hz: bin k is 100 * k Hz; at 3200 Hz, 200 * k Hz
    let frames: Vec<Vec<u16>> = vec![vec![1, 2, 3, 4, 5], vec![60_000, 60_000, 0, 0, 7]];
    let s = Spectrogram::from_frames(&frames);
    let samples = s.to_samples(1600, 16, 8, 4);
    assert_eq!(samples.len(), 2);
    assert_eq!((samples[0].time_ms, samples[0].bins.clone()), (0, vec![1, 2, 3, 4]));
    assert_eq!((samples[1].time_ms, samples[1].bins.clone()), (5, vec![60_000, 60_000, 0, 0]));
    let wide = s.to_samples(3200, 16, 8, 4);
    assert_eq!(wide[0].bins, vec![1, 0, 2, 0]);
    let coarse = s.to_samples(800, 16, 8, 2);
    assert_eq!(coarse[1].bins, vec![65_535, 0]);
    assert!(spectra_fit(&samples));
    let unordered = vec![
        SpectrumSample { time_ms: 5, bins: vec![] },
        SpectrumSample { time_ms: 5, bins: vec![] },
    ];
    assert!(!spectra_fit(&unordered));
}
