use bpm_analyzer::analyzer::{BpmAnalyzer, BpmAnalyzerConfig, ConstructionError};
use bpm_analyzer::button::{ButtonAction, ButtonListener, PressTracker};
use bpm_analyzer::correlation::{
    check_harmonics, correlation_at, lag_to_tenths, parabolic_interpolation, search_correlation,
    CorrelationError, LagEstimate, ONE,
};
use bpm_analyzer::midi::{control_change_message, decode_message, note_on_message, GuiCommand, MidiEvent};
use bpm_analyzer::multirate::{decimate, SamplingConfig};
use bpm_analyzer::restart::{PolicyAudioRestart, RestartTracker};
use bpm_analyzer::ring::RingBuffer;
use bpm_analyzer::smoother::{median, SmootherConfig, TempoSmoother};
use bpm_analyzer::uevent::parse_env;
use bpm_analyzer::window::{check_drop, normalize_window, peak_index};

fn small_window() -> Vec<i64> {
    vec![300, -100, 250, -200, 100, 0, -300, 200, 150, -250, 100, -50]
}

#[test]
fn ring_buffer_drops_oldest_when_full() {
    let mut r = RingBuffer::<u32>::new(3);
    for x in 1..=4u32 {
        r.push(x);
    }
    assert_eq!(r.to_vec(), vec![2, 3, 4]);
    assert!(r.is_full());
    r.push_all(&vec![7, 8]);
    assert_eq!(r.to_vec(), vec![4, 7, 8]);
    assert_eq!(r.len(), 3);
    r.clear();
    assert_eq!(r.len(), 0);
}

#[test]
fn ring_buffer_below_capacity_keeps_all() {
    let mut r = RingBuffer::<u32>::new(5);
    r.push_all(&vec![1, 2]);
    assert_eq!(r.to_vec(), vec![1, 2]);
    assert!(!r.is_full());
}

#[test]
fn decimation_averages_partial_last_group() {
    let mut out = Vec::new();
    decimate(&vec![1, 2, 3, 4, 5], 2, &mut out);
    assert_eq!(out, vec![1, 3, 5]);
    decimate(&vec![], 4, &mut out);
    assert!(out.is_empty());
}

#[test]
fn sampling_config_lags() {
    let fine = SamplingConfig::new(44100, 4, 4, 4, 60, 310);
    assert_eq!(fine.buffer.capacity(), 44100);
    assert_eq!(fine.min_lag, 2133);
    assert_eq!(fine.max_lag, 11025);
    let coarse = SamplingConfig::new(44100, 88, 4, 22, 60, 310);
    assert_eq!(coarse.buffer.capacity(), 2004);
    assert_eq!(coarse.min_lag, 96);
    assert_eq!(coarse.max_lag, 501);
    let mut c = coarse;
    let mut out = Vec::new();
    c.update_buffer(&vec![10; 44], &mut out);
    assert_eq!(out, vec![10, 10]);
    assert_eq!(c.buffer.len(), 2);
}

#[test]
fn zero_length_window_stays_empty() {
    let mut c = SamplingConfig::new(44100, 4, 0, 4, 60, 310);
    assert_eq!(c.buffer.capacity(), 0);
    let mut out = Vec::new();
    c.update_buffer(&vec![5; 16], &mut out);
    assert_eq!(out, vec![5, 5, 5, 5]);
    assert_eq!(c.buffer.len(), 0);
}

#[test]
fn normalization_centres_and_measures() {
    let mut r = RingBuffer::<u32>::new(3);
    r.push_all(&vec![0, 2, 4]);
    let mut v = Vec::new();
    let mut c = Vec::new();
    let n = normalize_window(&r, &mut v, &mut c);
    assert_eq!(v, vec![0, 524288, 1048576]);
    assert_eq!(c, vec![-524288, 0, 524288]);
    assert_eq!(n.energy_sum, 549755813888);
    assert_eq!(n.energy_mean, 166666);
    assert_eq!(c.iter().sum::<i64>(), 0);
}

#[test]
fn normalization_of_empty_and_silent_windows() {
    let r = RingBuffer::<u32>::new(4);
    let mut v = vec![9];
    let mut c = vec![9];
    let n = normalize_window(&r, &mut v, &mut c);
    assert!(v.is_empty() && c.is_empty());
    assert_eq!((n.energy_sum, n.energy_mean), (0, 0));
    let mut z = RingBuffer::<u32>::new(4);
    z.push_all(&vec![0, 0, 0]);
    let n = normalize_window(&z, &mut v, &mut c);
    assert_eq!(c, vec![0, 0, 0]);
    assert_eq!(n.energy_mean, 0);
}

#[test]
fn normalized_mean_is_within_one_unit() {
    let mut r = RingBuffer::<u32>::new(7);
    r.push_all(&vec![3, 9, 1, 7, 7, 2, 5]);
    let mut v = Vec::new();
    let mut c = Vec::new();
    normalize_window(&r, &mut v, &mut c);
    let s: i64 = c.iter().sum();
    assert!(s >= 0 && s < 7);
    assert!(v.iter().all(|x| *x >= 0 && *x <= ONE));
    assert!(c.iter().all(|x| *x >= -ONE && *x <= ONE));
}

#[test]
fn correlation_values() {
    let c = small_window();
    assert_eq!(correlation_at(&c, 0), 440000);
    assert_eq!(correlation_at(&c, 3), 97500);
    assert_eq!(correlation_at(&c, 8), 105000);
    assert_eq!(correlation_at(&c, 11), -15000);
}

#[test]
fn search_finds_best_lag_and_confidence() {
    let c = small_window();
    let r = search_correlation(&c, 440000, 1, 11, 200000);
    assert_eq!(r, Ok(LagEstimate { lag: 8, confidence: 238636, correlation: 105000 }));
    let r = search_correlation(&c, 440000, 0, 5, 0);
    assert_eq!(r, Ok(LagEstimate { lag: 3, confidence: 221590, correlation: 97500 }));
}

#[test]
fn search_confidence_is_never_below_threshold() {
    let c = small_window();
    for min in [0u64, 100000, 200000, 238636, 238637, 500000] {
        match search_correlation(&c, 440000, 1, 11, min) {
            Ok(e) => assert!(e.confidence >= min),
            Err(e) => {
                assert_eq!(e, CorrelationError::LowConfidence);
                assert!(min > 238636);
            }
        }
    }
}

#[test]
fn search_without_positive_correlation_fails() {
    let c = vec![0i64; 10];
    assert_eq!(search_correlation(&c, 0, 1, 9, 0), Err(CorrelationError::NoCorrelation));
    let alt = vec![1i64, -1, 1, -1];
    assert_eq!(search_correlation(&alt, 4, 1, 1, 0), Err(CorrelationError::NoCorrelation));
    assert_eq!(search_correlation(&vec![], 0, 1, 10, 0), Err(CorrelationError::NoCorrelation));
}

#[test]
fn search_rejects_low_confidence() {
    let c = small_window();
    assert_eq!(search_correlation(&c, 440000, 1, 11, 300000), Err(CorrelationError::LowConfidence));
}

#[test]
fn harmonics_promote_strong_half_lag() {
    // Period 4 with a weaker beat every 2: the half lag is strong.
    let mut c = Vec::new();
    for i in 0..64 {
        c.push(match i % 4 {
            0 => 1000,
            2 => 800,
            _ => -900,
        });
    }
    assert_eq!(check_harmonics(4, correlation_at(&c, 4), &c, 2, 500000, 600000), 2);
    // A half lag under the minimum lag is not tried.
    assert_eq!(check_harmonics(4, correlation_at(&c, 4), &c, 3, 500000, 600000), 4);
}

#[test]
fn parabolic_refinement() {
    let c: Vec<i64> = small_window().iter().map(|x| x * 1000).collect();
    let r8 = correlation_at(&c, 8);
    assert_eq!(parabolic_interpolation(8, r8, &c, 1, 11), (5545000000000, 700000000000));
    // Too flat a parabola leaves the lag as it is.
    let small = small_window();
    assert_eq!(parabolic_interpolation(8, 105000, &small, 1, 11), (8, 1));
    // A lag at the edge of the range, or outside it, is not refined.
    assert_eq!(parabolic_interpolation(8, r8, &c, 1, 8), (8, 1));
    assert_eq!(parabolic_interpolation(20, r8, &c, 1, 11), (20, 1));
    assert_eq!(parabolic_interpolation(0, 0, &c, 0, 11), (0, 1));
}

#[test]
fn tempo_from_lag() {
    assert_eq!(lag_to_tenths(44100, 4, 11025, 2), 1200);
    assert_eq!(lag_to_tenths(44100, 4, 5512, 1), 1200);
    assert_eq!(lag_to_tenths(44100, 4, 5545000000000, 700000000000), 835077);
    assert_eq!(lag_to_tenths(16000, 1, 8000, 1), 1200);
    assert_eq!(lag_to_tenths(44100, 4, 5023, 1), 1317);
}

#[test]
fn drop_needs_louder_last_quarter() {
    let mut v = vec![ONE / 10; 12];
    v.extend(vec![ONE; 4]);
    assert!(check_drop(&v, 1500000, 10000));
    assert!(!check_drop(&vec![ONE; 16], 1500000, 10000));
    let mut quiet = vec![0; 12];
    quiet.extend(vec![ONE / 100; 4]);
    assert!(!check_drop(&quiet, 1500000, 10000));
    assert!(!check_drop(&vec![], 1500000, 10000));
}

#[test]
fn peak_search() {
    let v = vec![0, 5, 3, 5, 1, 9, 2, 0];
    assert_eq!(peak_index(&v, 0), 5);
    assert_eq!(peak_index(&v, 6), 6);
    assert_eq!(peak_index(&vec![0, 0, 0], 1), 1);
    assert_eq!(peak_index(&v, 20), 20);
}

#[test]
fn median_is_upper_middle() {
    assert_eq!(median(&vec![5, 1, 4, 2, 3]), 3);
    assert_eq!(median(&vec![1, 2]), 2);
    assert_eq!(median(&vec![7]), 7);
    assert_eq!(median(&vec![4, 4, 1, 9]), 4);
}

fn smoother() -> TempoSmoother {
    TempoSmoother::new(SmootherConfig { history_len: 5, silence_ms: 10000, gate_ratio: 900000, gate_floor: 30000 })
}

#[test]
fn smoother_needs_a_drop_to_lock() {
    let mut s = smoother();
    assert_eq!(s.accept(1200, 50000, false, 100), None);
    assert_eq!(s.reference(), 0);
    let r = s.accept(1200, 50000, true, 200).unwrap();
    assert_eq!((r.bpm, r.average_energy), (1200, 50000));
    assert_eq!(s.reference(), 1200);
}

#[test]
fn smoother_accepts_harmonics_of_reference() {
    let mut s = smoother();
    s.accept(1200, 50000, true, 200).unwrap();
    assert_eq!(s.accept(2400, 50000, false, 300).unwrap().bpm, 2400);
    assert_eq!(s.accept(1800, 50000, false, 400), None);
    assert_eq!(s.accept(600, 50000, false, 500).unwrap().bpm, 1200);
    assert_eq!(s.accept(3600, 50000, false, 600).unwrap().bpm, 2400);
    assert_eq!(s.accept(1320, 50000, false, 700).unwrap().bpm, 1320);
    assert_eq!(s.history_len(), 5);
    let r = s.accept(1250, 40000, false, 800).unwrap();
    assert_eq!(r.bpm, 1320);
    assert_eq!(r.average_energy, 48000);
    assert_eq!(s.history_len(), 5);
    assert_eq!(s.accept(1321, 50000, false, 900), None);
}

#[test]
fn smoother_tolerance_is_ten_percent_of_each_harmonic() {
    let mut s = smoother();
    s.accept(1200, 50000, true, 100).unwrap();
    // Within 10% of 240.0, 60.0 and 360.0.
    assert!(s.accept(2580, 50000, false, 200).is_some());
    assert!(s.accept(2170, 50000, false, 300).is_some());
    assert!(s.accept(650, 50000, false, 400).is_some());
    assert!(s.accept(3900, 50000, false, 500).is_some());
    // Outside every band.
    assert_eq!(s.accept(780, 50000, false, 600), None);
    assert_eq!(s.accept(2700, 50000, false, 700), None);
    assert_eq!(s.accept(4000, 50000, false, 800), None);
    assert_eq!(s.reference(), 1200);
}

#[test]
fn smoother_gate_and_silence_reset() {
    let mut s = smoother();
    s.accept(1200, 50000, true, 200).unwrap();
    assert_eq!(s.accept(1200, 1000, false, 300), None);
    assert_eq!(s.history_len(), 1);
    assert!(!s.accepts_time(200));
    assert!(s.accepts_time(201));
    assert_eq!(s.accept(1200, 50000, false, 10201), None);
    assert_eq!(s.reference(), 0);
    assert_eq!(s.history_len(), 0);
    assert!(s.accept(1300, 50000, true, 10300).is_some());
    assert_eq!(s.reference(), 1300);
}

#[test]
fn construction_errors() {
    assert_eq!(BpmAnalyzer::new(0, None).err(), Some(ConstructionError::InvalidSampleRate));
    assert!(BpmAnalyzer::new(500000, None).is_ok());
    assert!(BpmAnalyzer::new(400000, None).is_ok());
    assert_eq!(BpmAnalyzer::new(500, None).err(), Some(ConstructionError::CutoffAboveNyquist));
    assert!(BpmAnalyzer::new(501, None).is_ok());
    assert_eq!(BpmAnalyzer::new(400, None).err(), Some(ConstructionError::CutoffAboveNyquist));
    let base = BpmAnalyzerConfig::default();
    let cfg = BpmAnalyzerConfig { window_secs: 0, ..base };
    assert_eq!(BpmAnalyzer::new(44100, Some(cfg)).err(), Some(ConstructionError::InvalidWindow));
    let cfg = BpmAnalyzerConfig { min_bpm: 0, ..base };
    assert_eq!(BpmAnalyzer::new(44100, Some(cfg)).err(), Some(ConstructionError::InvalidTempoRange));
    let cfg = BpmAnalyzerConfig { history_len: 0, ..base };
    assert_eq!(BpmAnalyzer::new(44100, Some(cfg)).err(), Some(ConstructionError::InvalidHistory));
    let cfg = BpmAnalyzerConfig { history_len: 1000, ..base };
    assert!(BpmAnalyzer::new(44100, Some(cfg)).is_ok());
    let cfg = BpmAnalyzerConfig { window_secs: 1000, ..base };
    assert!(BpmAnalyzer::new(1000, Some(cfg)).is_ok());
    let cfg = BpmAnalyzerConfig { low_cut_hz: 0, ..base };
    assert_eq!(BpmAnalyzer::new(44100, Some(cfg)).err(), Some(ConstructionError::CutoffAboveNyquist));
}

#[test]
fn default_analyzer_settings() {
    let a = BpmAnalyzer::new(44100, None).unwrap();
    assert_eq!(a.capacities(), (44100, 2004));
    assert_eq!(a.config(), BpmAnalyzerConfig::default());
    assert_eq!(a.config().window_secs, 4);
    assert_eq!(a.config().thresholds.fine_confidence, 300000);
    assert_eq!(a.buffer_lens(), (0, 0, 0));
    assert_eq!(a.reference(), 0);
    let st = a.analyzer_settings();
    assert_eq!((st.fine_step, st.fine_min_lag, st.fine_max_lag), (4, 2133, 11025));
    assert_eq!((st.coarse_min_lag, st.coarse_max_lag), (96, 501));
    let b = BpmAnalyzer::new(22050, None).unwrap();
    assert_eq!(b.capacities(), (88200, 4009));
    let c = BpmAnalyzer::new(16000, None).unwrap();
    let st = c.analyzer_settings();
    assert_eq!((st.fine_step, st.fine_capacity, st.coarse_capacity), (1, 64000, 2909));
    assert_eq!((st.fine_min_lag, st.fine_max_lag), (3096, 16000));
    assert_eq!((st.coarse_min_lag, st.coarse_max_lag), (140, 727));
}

#[test]
fn buffers_fill_to_capacity() {
    let mut a = BpmAnalyzer::new(1000, None).unwrap();
    assert_eq!(a.capacities(), (4000, 181));
    let batch = vec![100i16; 1000];
    let mut now = 0;
    for _ in 0..6 {
        now += 1000;
        a.process(&batch, &batch, now);
        let (f, c, r) = a.buffer_lens();
        assert!(f <= 4000 && c <= 181 && r <= 4000);
    }
    assert_eq!(a.buffer_lens(), (4000, 181, 4000));
}

#[test]
fn midi_decoding() {
    assert_eq!(decode_message(&[0x93, 60, 100]), Some(MidiEvent::NoteOn { channel: 3, note: 60, velocity: 100 }));
    assert_eq!(decode_message(&[0x90, 60, 0]), None);
    assert_eq!(
        decode_message(&[0xB1, 7, 64, 0]),
        Some(MidiEvent::ControlChange { channel: 1, controller: 7, value: 64 })
    );
    assert_eq!(decode_message(&[0x80, 60, 10]), None);
    assert_eq!(decode_message(&[0x90, 60]), None);
}

#[test]
fn midi_encoding() {
    assert_eq!(note_on_message(0x13, 60, 100), [0x93, 60, 100]);
    assert_eq!(control_change_message(2, 7, 127), [0xB2, 7, 127]);
    assert_eq!(GuiCommand::SetDetection(true), GuiCommand::SetDetection(true));
}

#[test]
fn button_listener_timings() {
    let l = ButtonListener::new("/dev/gpiochip0", 17);
    assert_eq!(l.chip_path(), "/dev/gpiochip0");
    assert_eq!(l.line_offset(), 17);
    assert_eq!((l.debounce_ms(), l.double_press_ms(), l.long_press_ms()), (60, 300, 800));
    let l = l.with_timings(10, 200, 500);
    assert_eq!((l.debounce_ms(), l.double_press_ms(), l.long_press_ms()), (10, 200, 500));
    assert_eq!(l.line_offset(), 17);
}

#[test]
fn button_single_double_and_long_press() {
    let l = ButtonListener::new("chip", 1).with_timings(10, 200, 500);
    let mut t = PressTracker::new(0);
    t.on_edge(&l, 100, true);
    assert_eq!(t.press_start, Some(100));
    assert_eq!(t.long_press_timer, Some(600));
    t.on_edge(&l, 105, false);
    assert_eq!(t.press_start, Some(100));
    t.on_edge(&l, 150, false);
    assert_eq!(t.click_count, 1);
    assert_eq!(t.double_click_timer, Some(350));
    assert_eq!(t.on_double_click_timeout(), Some(ButtonAction::SinglePress));

    t.on_edge(&l, 400, true);
    t.on_edge(&l, 450, false);
    t.on_edge(&l, 500, true);
    t.on_edge(&l, 550, false);
    assert_eq!(t.on_double_click_timeout(), Some(ButtonAction::DoublePress));

    t.on_edge(&l, 1000, true);
    assert_eq!(t.on_long_press_timeout(), Some(ButtonAction::LongPress));
    assert_eq!(t.on_long_press_timeout(), None);
    t.on_edge(&l, 1700, false);
    assert_eq!(t.click_count, 0);
    assert_eq!(t.on_double_click_timeout(), None);
}

#[test]
fn restart_policy_stops_after_burst() {
    assert_eq!(
        PolicyAudioRestart::default(),
        PolicyAudioRestart { max_restarts: 5, time_window_ms: 8000, retry_delay_ms: 1000 }
    );
    let mut t = RestartTracker::new(PolicyAudioRestart::default());
    for now in [0u64, 1000, 2000, 3000] {
        assert!(!t.should_stop_restarting(now));
    }
    assert!(t.should_stop_restarting(4000));
    let mut slow = RestartTracker::new(PolicyAudioRestart::default());
    for now in [0u64, 3000, 6000, 9000, 12000, 15000] {
        assert!(!slow.should_stop_restarting(now));
    }
    assert_eq!(slow.policy().max_restarts, 5);
}

#[test]
fn uevent_lookup() {
    let ev = b"ACTION=add\0DEVPATH=/devices/usb1\0SUBSYSTEM=usb\0DEVTYPE=usb_device";
    assert_eq!(parse_env(ev, b"SUBSYSTEM"), Some(b"usb".to_vec()));
    assert_eq!(parse_env(ev, b"DEVTYPE"), Some(b"usb_device".to_vec()));
    assert_eq!(parse_env(ev, b"ACTION"), Some(b"add".to_vec()));
    assert_eq!(parse_env(ev, b"DEV"), None);
    assert_eq!(parse_env(ev, b"PRODUCT"), None);
    assert_eq!(parse_env(b"A=\0B=2", b"A"), Some(vec![]));
    assert_eq!(parse_env(b"", b"A"), None);
}
