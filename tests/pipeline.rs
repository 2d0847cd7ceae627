use rhythm_pi_charter::bands::{band_bin_mask, frame_count, FrequencyBand};
use rhythm_pi_charter::chart::{ChartError, ChartExport, ChartFormat, Charter, CharterConfig, NoteExport};
use rhythm_pi_charter::difficulty::{enhance_notes, reduce_notes, shape, Difficulty};
use rhythm_pi_charter::flux::{estimate_bpm_from_env, multi_band_onsets, peak_pick, spectral_flux};
use rhythm_pi_charter::holds::{HoldDetector, SpectrumSample};
use rhythm_pi_charter::lanes::{LaneAssigner, LaneAssignmentStrategy, SimpleLcg};
use rhythm_pi_charter::note::Note;
use rhythm_pi_charter::onset::{estimate_bpm, find_peaks, frames_to_times, smooth_curve, BeatDetection};
use rhythm_pi_charter::quantizer::Quantizer;
use rhythm_pi_charter::spectrogram::Spectrogram;

fn note(time: u64, col: u8, duration: u64) -> Note {
    Note { time, col, duration }
}

#[test]
fn test_chart_format_detection() {
    assert_eq!(ChartFormat::from_str("json").unwrap().extension(), "json");
    assert_eq!(ChartFormat::from_str("chart").unwrap().extension(), "chart");
    assert!(ChartFormat::from_str("invalid").is_none());
}

#[test]
fn chart_format_ignores_case() {
    assert_eq!(ChartFormat::from_str("JSON"), Some(ChartFormat::Json));
    assert_eq!(ChartFormat::from_str("Chart"), Some(ChartFormat::Chart));
    assert_eq!(ChartFormat::from_str("jsonx"), None);
    assert_eq!(ChartFormat::from_str(""), None);
}

#[test]
fn test_grid_time_calculation() {
    let quantizer = Quantizer::new(120_000, 44100, 4);
    let time = quantizer.grid_time(0, 0);
    assert!(time.abs_diff(0) < 1000);
    let time = quantizer.grid_time(1, 0);
    assert!(time.abs_diff(500_000) < 1000);
    let time = quantizer.grid_time(0, 1);
    assert!(time.abs_diff(125_000) < 1000);
}

#[test]
fn test_quantize_time() {
    // 60 ms is 0.48 of a 125 ms sixteenth at 120 BPM: the nearest grid point is 0.
    let quantizer = Quantizer::new(120_000, 44100, 4);
    let (quantized, sub) = quantizer.quantize(60_000);
    assert_eq!(quantized, 0);
    assert_eq!(sub, 0);
    let (quantized, sub) = quantizer.quantize(70_000);
    assert_eq!(quantized, 125_000);
    assert_eq!(sub, 1);
}

#[test]
fn quantize_rounds_ties_up_and_reports_subdivision() {
    let q = Quantizer::new(120_000, 44100, 4);
    assert_eq!(q.quantize(62_500), (125_000, 1));
    assert_eq!(q.quantize(560_000), (500_000, 0));
    assert_eq!(q.quantize(880_000), (875_000, 3));
}

#[test]
fn quantize_is_idempotent_on_grid_points() {
    let q = Quantizer::new(97_300, 48000, 3);
    for t in [0u64, 1, 123_456, 777_777, 10_000_000, 3_600_000_000] {
        let (once, _) = q.quantize(t);
        let (twice, _) = q.quantize(once);
        assert_eq!(once, twice);
    }
}

#[test]
fn quantize_notes_sorts_and_drops_near_duplicates() {
    let q = Quantizer::new(120_000, 44100, 4);
    let notes = vec![
        note(1_000_000, 3, 0),
        note(130_000, 1, 0),
        note(10_000, 0, 0),
        note(120_000, 2, 0),
        note(0, 4, 7),
    ];
    let out = q.quantize_notes(notes);
    let times: Vec<u64> = out.iter().map(|n| n.time).collect();
    assert_eq!(times, vec![0, 125_000, 1_000_000]);
    // the first input note at each snapped time is kept
    assert_eq!(out[0].col, 0);
    assert_eq!(out[1].col, 1);
    for w in out.windows(2) {
        assert!(w[1].time > w[0].time + 10_000);
    }
}

#[test]
fn quantize_notes_of_nothing_is_nothing() {
    let q = Quantizer::new(120_000, 44100, 4);
    assert!(q.quantize_notes(Vec::new()).is_empty());
}

#[test]
fn test_smooth_curve() {
    let data = vec![1u64, 2, 3, 4, 5];
    let smoothed = smooth_curve(&data, 3);
    assert_eq!(smoothed.len(), data.len());
    assert!(smoothed[0] <= smoothed[1]);
}

#[test]
fn smooth_curve_exact_values() {
    let data = vec![30u64, 0, 60, 90];
    assert_eq!(smooth_curve(&data, 3), vec![15, 30, 50, 75]);
    assert!(smooth_curve(&Vec::new(), 3).is_empty());
}

#[test]
fn test_find_peaks() {
    let data = vec![0u64, 10, 5, 20, 5, 15, 0];
    let peaks = find_peaks(&data, 30);
    assert!(peaks.contains(&1));
    assert!(peaks.contains(&3));
}

#[test]
fn find_peaks_threshold_and_short_input() {
    let data = vec![0u64, 10, 5, 20, 5, 15, 0];
    assert_eq!(find_peaks(&data, 30), vec![1, 3, 5]);
    assert_eq!(find_peaks(&data, 50), vec![3, 5]);
    assert!(find_peaks(&vec![1u64, 5], 0).is_empty());
    assert!(find_peaks(&vec![0u64; 10], 0).is_empty());
}

#[test]
fn test_estimate_bpm() {
    let peaks = vec![0u64, 500_000, 1_000_000, 1_500_000];
    let bpm = estimate_bpm(&peaks);
    assert!(bpm.abs_diff(120_000) < 1000);
}

#[test]
fn estimate_bpm_defaults_and_clamps() {
    assert_eq!(estimate_bpm(&vec![]), 120_000);
    assert_eq!(estimate_bpm(&vec![400_000]), 120_000);
    assert_eq!(estimate_bpm(&vec![0, 2_000_000]), 60_000);
    assert_eq!(estimate_bpm(&vec![0, 100_000]), 240_000);
    assert_eq!(estimate_bpm(&vec![5, 5]), 240_000);
    assert_eq!(estimate_bpm(&vec![0, 400_000, 800_000]), 150_000);
}

#[test]
fn estimate_bpm_uses_first_twenty_intervals() {
    let mut peaks: Vec<u64> = (0..21).map(|i| i * 500_000).collect();
    peaks.push(100_000_000);
    assert_eq!(estimate_bpm(&peaks), 120_000);
}

#[test]
fn frames_to_times_uses_hop_and_rate() {
    assert_eq!(frames_to_times(&vec![0, 1, 86], 512, 44100), vec![0, 11_609, 998_458]);
}

#[test]
fn silence_yields_empty_charts() {
    // 0.5 s of 44.1 kHz audio gives 39 frames, all of zero energy.
    let energies = vec![0u64; 39];
    let detection = BeatDetection::from_energies(&energies, 44100);
    assert!(detection.peaks.is_empty());
    assert_eq!(detection.bpm, 120_000);
    let charter = Charter::new(CharterConfig::default());
    let charts = charter
        .generate_all_difficulties(&detection, 44100, "song", "vocals", &Vec::new(), 0)
        .unwrap();
    assert_eq!(charts.len(), 4);
    for c in &charts {
        assert!(c.notes.is_empty());
    }
}

#[test]
fn from_energies_finds_the_loud_frames() {
    let mut energies = vec![0u64; 40];
    for c in [10usize, 30] {
        energies[c - 1] = 300;
        energies[c] = 900;
        energies[c + 1] = 300;
    }
    let d = BeatDetection::from_energies(&energies, 44100);
    assert_eq!(d.onset_strengths[10], 500);
    assert_eq!(d.onset_strengths[9], 400);
    assert_eq!(d.peaks, vec![10 * 512 * 1_000_000 / 44100, 30 * 512 * 1_000_000 / 44100]);
    assert_eq!(d.bpm, 240_000);
}

#[test]
fn test_sequential_assignment() {
    let assigner = LaneAssigner::new(LaneAssignmentStrategy::Sequential, 4);
    let notes = vec![note(0, 0, 0), note(1_000_000, 0, 0), note(2_000_000, 0, 0)];
    let assigned = assigner.assign_lanes(notes, None);
    assert_eq!(assigned[0].col, 0);
    assert_eq!(assigned[1].col, 1);
    assert_eq!(assigned[2].col, 2);
}

#[test]
fn test_lane_wrapping() {
    let assigner = LaneAssigner::new(LaneAssignmentStrategy::Sequential, 4);
    let notes = (0..8).map(|i| note(i * 1_000_000, 0, 0)).collect();
    let assigned = assigner.assign_lanes(notes, None);
    assert_eq!(assigned[4].col, 0);
    assert_eq!(assigned[7].col, 3);
}

#[test]
fn sequential_lanes_keep_cycling_past_256_notes() {
    let assigner = LaneAssigner::new(LaneAssignmentStrategy::Sequential, 5);
    let notes = (0..300).map(|i| note(i * 20_000, 0, 0)).collect();
    let assigned = assigner.assign_lanes(notes, None);
    assert_eq!(assigned[256].col, 1);
    assert_eq!(assigned[299].col, 4);
}

#[test]
fn random_lanes_follow_the_generator() {
    let mut rng = SimpleLcg::new(42);
    let expected: Vec<u8> = (0..6).map(|_| (rng.next() % 4) as u8).collect();
    let assigner = LaneAssigner::new(LaneAssignmentStrategy::Random { seed: 42 }, 4);
    let notes = (0..6).map(|i| note(i * 100_000, 0, 0)).collect();
    let lanes: Vec<u8> = assigner.assign_lanes(notes, None).iter().map(|n| n.col).collect();
    assert_eq!(lanes, expected);
    let mut g = SimpleLcg::new(1);
    assert_eq!(g.next(), 1103527590 / 65536);
    assert_eq!(g.state, 1103527590);
}

fn sample(time_ms: u64, bins: Vec<u16>) -> SpectrumSample {
    SpectrumSample { time_ms, bins }
}

#[test]
fn frequency_lanes_follow_the_loudest_band() {
    let strategy = LaneAssignmentStrategy::FrequencyBased { low_hz: 200, mid_hz: 400, high_hz: 600 };
    let assigner = LaneAssigner::new(strategy, 4);
    let data = vec![
        sample(0, vec![9, 9, 0, 0, 0, 0]),
        sample(500, vec![0, 0, 9, 9, 0, 0]),
        sample(1000, vec![0, 0, 0, 0, 9, 9]),
    ];
    let notes = vec![note(10_000, 0, 0), note(480_000, 0, 0), note(990_000, 0, 0), note(750_000, 3, 0)];
    let lanes: Vec<u8> = assigner.assign_lanes(notes, Some(&data)).iter().map(|n| n.col).collect();
    // 750 ms is as far from 500 ms as from 1000 ms: the first sample found wins
    assert_eq!(lanes, vec![0, 1, 2, 1]);
    let five = LaneAssigner::new(strategy, 5);
    assert_eq!(five.frequency_to_lane(&vec![9, 9, 0, 0, 0, 0], 200, 400, 600), 1);
    assert_eq!(five.frequency_to_lane(&vec![0, 0, 0, 0, 9, 9], 200, 400, 600), 3);
    assert_eq!(five.frequency_to_lane(&vec![0, 0, 0, 0, 0, 0], 200, 400, 600), 4);
}

#[test]
fn frequency_strategy_without_data_is_sequential() {
    let strategy = LaneAssignmentStrategy::FrequencyBased { low_hz: 100, mid_hz: 500, high_hz: 2000 };
    let assigner = LaneAssigner::new(strategy, 4);
    let notes = (0..5).map(|i| note(i * 100_000, 0, 0)).collect();
    let lanes: Vec<u8> = assigner.assign_lanes(notes, None).iter().map(|n| n.col).collect();
    assert_eq!(lanes, vec![0, 1, 2, 3, 0]);
}

#[test]
fn test_get_band_energy() {
    let detector = HoldDetector::new(50, 250_000);
    let spectrum = vec![1u16, 2, 3, 4, 5];
    let energy = detector.get_band_energy(&spectrum, 0, 200);
    assert!(energy > 0);
}

#[test]
fn band_energy_rounds_and_clamps_bins() {
    let detector = HoldDetector::new(50, 250_000);
    let spectrum = vec![1u16, 2, 3, 4, 5];
    assert_eq!(detector.get_band_energy(&spectrum, 0, 200), 6);
    assert_eq!(detector.get_band_energy(&spectrum, 150, 260), 7);
    assert_eq!(detector.get_band_energy(&spectrum, 300, 90_000), 9);
    assert_eq!(detector.get_band_energy(&spectrum, 800, 900), 0);
    assert_eq!(detector.get_band_energy(&Vec::new(), 0, 900), 0);
}

#[test]
fn test_merge_nearby_notes() {
    let detector = HoldDetector::new(50, 250_000);
    let notes = vec![note(0, 0, 100_000), note(150_000, 0, 100_000), note(1_000_000, 0, 100_000)];
    let merged = detector.merge_nearby_notes(notes, 200_000);
    assert_eq!(merged.len(), 2);
    assert_eq!(merged[0].time, 0);
    assert!(merged[0].duration.abs_diff(250_000) < 1000);
}

#[test]
fn merge_keeps_other_lanes_apart() {
    let detector = HoldDetector::new(50, 250_000);
    let notes = vec![note(0, 0, 100_000), note(150_000, 1, 100_000), note(200_000, 0, 0)];
    let merged = detector.merge_nearby_notes(notes, 200_000);
    assert_eq!(merged, vec![note(0, 0, 100_000), note(150_000, 1, 100_000), note(200_000, 0, 0)]);
    assert_eq!(detector.merge_nearby_notes(vec![note(5, 2, 0)], 0), vec![note(5, 2, 0)]);
}

#[test]
fn holds_extend_while_energy_lasts() {
    let detector = HoldDetector::new(10, 250_000);
    let data = vec![
        sample(0, vec![0, 20]),
        sample(100, vec![0, 20]),
        sample(200, vec![0, 20]),
        sample(300, vec![0, 20]),
        sample(400, vec![0, 0]),
        sample(500, vec![0, 20]),
    ];
    let ranges = vec![(0u8, 100u32, 100u32), (1, 0, 0)];
    let notes = vec![note(100_000, 0, 0), note(200_000, 0, 0), note(0, 1, 0), note(0, 3, 0)];
    let out = detector.detect_holds(notes, &data, &ranges);
    assert_eq!(out[0].duration, 0); // 200 ms is shorter than the 250 ms minimum
    assert_eq!(out[0].time, 100_000);
    assert_eq!(detector.find_sustained_energy(&data, 0, 100, 100), 300_000);
    assert_eq!(out[1].duration, 0);
    assert_eq!(out[2].duration, 0); // lane 1 listens to bin 0, which is silent
    assert_eq!(out[3], note(0, 3, 0)); // no range for lane 3
    let long = HoldDetector::new(10, 100_000);
    let out = long.detect_holds(vec![note(50_000, 0, 0)], &data, &ranges);
    assert_eq!(out[0].duration, 250_000);
}

#[test]
fn test_frequency_band_for_instrument() {
    let band = FrequencyBand::for_instrument("vocals");
    assert_eq!(band.name, "vocals");
    assert!(band.low_hz > 0);
    assert!(band.high_hz > band.low_hz);
}

#[test]
fn test_all_instruments_have_bands() {
    for instrument in &["vocals", "bass", "drums", "lead"] {
        let band = FrequencyBand::for_instrument(instrument);
        assert_eq!(band.name, *instrument);
    }
}

#[test]
fn band_limits_and_default() {
    let b = FrequencyBand::for_instrument("BASS");
    assert_eq!((b.name, b.low_hz, b.high_hz), ("bass", 40, 250));
    let d = FrequencyBand::for_instrument("kazoo");
    assert_eq!((d.name, d.low_hz, d.high_hz), ("default", 40, 8000));
    let mask = band_bin_mask(44100, 2048, &FrequencyBand::for_instrument("bass"));
    assert_eq!(mask.len(), 2048);
    assert!(!mask[1]); // 21.5 Hz
    assert!(mask[2]); // 43.1 Hz
    assert!(mask[11]); // 236.9 Hz
    assert!(!mask[12]); // 258.4 Hz
    assert_eq!(frame_count(4410, 2048, 512), 5);
    assert_eq!(frame_count(2047, 2048, 512), 0);
}

#[test]
fn test_charter_config_default() {
    let config = CharterConfig::default();
    assert_eq!(config.grid_division, 4);
    assert!(config.bpm.is_none());
}

#[test]
fn invalid_configuration_is_rejected() {
    let mut config = CharterConfig::default();
    config.grid_division = 0;
    assert_eq!(config.validate(), Err(ChartError::InvalidConfiguration));
    let detection = BeatDetection { peaks: vec![0], bpm: 120_000, onset_strengths: vec![] };
    assert!(Charter::new(config).generate_all_difficulties(&detection, 44100, "s", "bass", &Vec::new(), 0).is_err());
    let mut config = CharterConfig::default();
    config.bpm = Some(0);
    assert_eq!(config.validate(), Err(ChartError::InvalidConfiguration));
    assert_eq!(
        LaneAssignmentStrategy::from_name("zigzag", 0),
        Err(ChartError::InvalidConfiguration)
    );
    assert_eq!(LaneAssignmentStrategy::from_name("Random", 9), Ok(LaneAssignmentStrategy::Random { seed: 9 }));
}

#[test]
fn test_chart_export_chart_format() {
    let notes = vec![note(500_000, 2, 250_000)];
    let chart = ChartExport::new(
        "test_song".to_string(),
        "vocals".to_string(),
        "Easy".to_string(),
        4,
        120_000,
        notes,
        0,
    );
    let chart_text = chart.to_chart();
    assert!(chart_text.contains("BPM = 120"));
    assert!(chart_text.contains("Difficulty = Easy"));
    assert!(chart_text.contains("Columns = 4"));
}

#[test]
fn chart_text_lists_taps_and_holds() {
    let notes = vec![note(500_000, 2, 250_000), note(1_250_400, 0, 0)];
    let chart = ChartExport::new("s".to_string(), "bass".to_string(), "Hard".to_string(), 4, 117_500, notes, 7);
    let text = chart.to_chart();
    assert_eq!(
        text,
        "[SONG]\n  Title = \"s\"\n  Artist = \"\"\n  BPM = 117.5\n  Gap = 0\n\n[NOTES]\n  Instrument = bass\n  Difficulty = Hard\n  Columns = 4\n  Notes = 2\n:\n  2|2|0.500\n  2|2|0.250\n  1|0|1.250\n;\n"
    );
}

#[test]
fn exported_duration_round_trip() {
    let n = NoteExport { time: 500_000, col: 2, duration: 500 };
    assert_eq!(n.serialized_duration(), None);
    let back = NoteExport::from_serialized(n.time, n.col, n.serialized_duration());
    assert_eq!(back, NoteExport { time: 500_000, col: 2, duration: 0 });
    let h = NoteExport { time: 1, col: 0, duration: 250_000 };
    assert_eq!(h.serialized_duration(), Some(250_000));
    assert_eq!(NoteExport::from_serialized(h.time, h.col, h.serialized_duration()), h);
}

#[test]
fn difficulty_shaping() {
    let p: Vec<u64> = vec![0, 100_000, 200_000, 300_000, 400_000];
    assert_eq!(reduce_notes(&p, 60), vec![0, 200_000, 400_000]);
    assert_eq!(reduce_notes(&p, 80), vec![0, 200_000, 300_000, 400_000]);
    assert!(reduce_notes(&vec![], 60).is_empty());
    assert_eq!(shape(&p, Difficulty::Hard), p);
    assert_eq!(enhance_notes(&vec![0, 1_000_000, 1_030_000, 1_100_000]), vec![0, 500_000, 1_000_000, 1_100_000]);
    assert_eq!(Difficulty::Expert.lanes(), 5);
    assert_eq!(Difficulty::Normal.lanes(), 4);
    assert_eq!(Difficulty::Expert.name(), "Expert");
}

#[test]
fn charts_for_every_difficulty() {
    let peaks: Vec<u64> = (0..10).map(|i| i * 400_000 + 3_000).collect();
    let detection = BeatDetection { peaks, bpm: 150_000, onset_strengths: vec![] };
    let charter = Charter::new(CharterConfig::default());
    let charts = charter
        .generate_all_difficulties(&detection, 44100, "song", "drums", &Vec::new(), 1_700_000_000)
        .unwrap();
    let names: Vec<&str> = charts.iter().map(|c| c.difficulty.as_str()).collect();
    assert_eq!(names, vec!["Easy", "Normal", "Hard", "Expert"]);
    assert_eq!(charts[0].notes.len(), 6);
    assert_eq!(charts[1].notes.len(), 8);
    assert_eq!(charts[2].notes.len(), 10);
    assert_eq!(charts[3].columns, 5);
    for c in &charts {
        assert_eq!(c.bpm, 150_000);
        assert_eq!(c.generated_at, 1_700_000_000);
        for (i, n) in c.notes.iter().enumerate() {
            assert_eq!(n.time % 100_000, 0); // a 100 ms grid at 150 BPM
            assert_eq!(n.col as usize, i % c.columns as usize);
        }
    }
}

#[test]
fn spectral_flux_and_autocorrelation() {
    let frames: Vec<Vec<u16>> = vec![vec![1, 5], vec![4, 2], vec![4, 9]];
    let s = Spectrogram::from_frames(&frames);
    assert_eq!(s.shape(), (2, 3));
    assert_eq!(s.get(1, 2), 9);
    assert_eq!(spectral_flux(&s), vec![0, 3, 7]);
    assert!(spectral_flux(&Spectrogram::from_frames(&Vec::new())).is_empty());
    assert_eq!(estimate_bpm_from_env(&vec![1, 2, 3], 44100, 512), 120_000);
    // a pulse every 43 frames at 44.1 kHz / 512 is about 120 BPM
    let env: Vec<u64> = (0..400).map(|i| if i % 43 == 0 { 100 } else { 0 }).collect();
    assert_eq!(estimate_bpm_from_env(&env, 44100, 512), 120_185);
    assert_eq!(estimate_bpm_from_env(&vec![0; 400], 44100, 512), 120_000);
}

#[test]
fn peak_pick_windows_and_threshold() {
    let env = vec![0u64, 5, 1, 100, 2, 3, 1, 20];
    assert_eq!(peak_pick(&env, 3, 3, 150), vec![3, 7]);
    let env2 = vec![0u64, 5, 1, 0, 0, 0, 0, 20];
    assert_eq!(peak_pick(&env2, 3, 3, 150), vec![1, 7]);
    assert_eq!(peak_pick(&env2, 3, 3, 300), vec![7]);
    assert!(peak_pick(&env, 0, 3, 0).is_empty());
}

#[test]
fn multi_band_onsets_split_by_frequency() {
    // 16-point transform at 1600 Hz: bin k is 100 * k Hz
    let mut frames: Vec<Vec<u16>> = vec![vec![0; 9]; 12];
    frames[4][1] = 500; // bass (100 Hz)
    frames[8][6] = 500; // vocals and lead (600 Hz)
    let r = multi_band_onsets(&Spectrogram::from_frames(&frames), 1600, 16, 8);
    assert_eq!(r.bass, vec![4 * 8 * 1_000_000 / 1600]);
    assert_eq!(r.vocals, vec![8 * 8 * 1_000_000 / 1600]);
    assert_eq!(r.lead, vec![8 * 8 * 1_000_000 / 1600]);
    assert_eq!(r.drums, vec![4 * 8 * 1_000_000 / 1600, 8 * 8 * 1_000_000 / 1600]);
}

#[test]
fn flux_strategy_detection() {
    let mut frames: Vec<Vec<u16>> = vec![vec![0; 4]; 10];
    frames[3] = vec![100, 100, 100, 100];
    frames[7] = vec![100, 100, 100, 100];
    let d = BeatDetection::from_spectral_flux(&Spectrogram::from_frames(&frames), 44100, 512);
    assert_eq!(d.onset_strengths, vec![0, 0, 0, 400, 0, 0, 0, 400, 0, 0]);
    assert_eq!(d.peaks, vec![3 * 512 * 1_000_000 / 44100, 7 * 512 * 1_000_000 / 44100]);
    assert_eq!(d.bpm, 120_000);
}

#[test]
fn merging_never_shortens_a_hold() {
    let detector = HoldDetector::new(50, 250_000);
    let notes = vec![note(0, 1, 1_000_000), note(100_000, 1, 100_000)];
    assert_eq!(detector.merge_nearby_notes(notes, 0), vec![note(0, 1, 1_000_000)]);
    let notes = vec![note(0, 1, 100_000), note(150_000, 1, 900_000)];
    assert_eq!(detector.merge_nearby_notes(notes, 50_000), vec![note(0, 1, 1_050_000)]);
}

#[test]
fn grid_times_stay_put() {
    let q = Quantizer::new(117_500, 44100, 8);
    for beat in 0..20u64 {
        for sub in 0..8u8 {
            let t = q.grid_time(beat, sub);
            assert_eq!(q.quantize(t).0, t);
        }
    }
}

#[test]
fn chart_lanes_and_holds_follow_the_spectra() {
    let spectra = vec![
        SpectrumSample { time_ms: 0, bins: vec![0, 9, 0, 0, 0, 0, 0] },
        SpectrumSample { time_ms: 100, bins: vec![0, 9, 0, 0, 0, 0, 0] },
        SpectrumSample { time_ms: 200, bins: vec![0, 9, 0, 0, 0, 0, 0] },
        SpectrumSample { time_ms: 300, bins: vec![0, 9, 0, 0, 0, 0, 0] },
        SpectrumSample { time_ms: 400, bins: vec![0, 0, 0, 0, 0, 0, 0] },
        SpectrumSample { time_ms: 1000, bins: vec![0, 0, 0, 0, 9, 0, 0] },
    ];
    let mut config = CharterConfig::default();
    config.sustain_threshold = 5;
    config.min_hold_duration = 200_000;
    config.lane_strategy = LaneAssignmentStrategy::FrequencyBased { low_hz: 200, mid_hz: 400, high_hz: 600 };
    let detection = BeatDetection { peaks: vec![0, 1_000_000], bpm: 120_000, onset_strengths: vec![] };
    let charts = Charter::new(config)
        .generate_all_difficulties(&detection, 44100, "s", "bass", &spectra, 0)
        .unwrap();
    let hard = &charts[2];
    assert_eq!(hard.notes.len(), 2);
    // lane 0 hears bins 0..=2 (50..150 Hz rounds to bins 1..2): loud until 300 ms
    assert_eq!((hard.notes[0].col, hard.notes[0].duration), (0, 300_000));
    assert_eq!((hard.notes[1].col, hard.notes[1].duration), (2, 0));
}
