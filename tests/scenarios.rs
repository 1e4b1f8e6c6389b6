use biquad::{Biquad, Coefficients, DirectForm2Transposed, Hertz, Type, Q_BUTTERWORTH_F32};
use bpm_analyzer::analyzer::{AnalysisResult, BpmAnalyzer};

/// Batch length: a multiple of 4 * 22, so that no partial group skews the
/// coarse rate.
const BATCH: usize = 2112;

fn beats(bpm: f64, start: f64, end: f64) -> Vec<f64> {
    let p = 60.0 / bpm;
    let mut t = start;
    let mut out = Vec::new();
    while t < end {
        out.push(t);
        t += p;
    }
    out
}

/// Decaying 100 Hz bursts ("kicks") starting at the given times.
fn kicks(rate: u32, times: &[f64], amps: &[i32], n: usize, klen: usize, tau: f64) -> Vec<i16> {
    let mut sig = vec![0i32; n];
    for (t0, a) in times.iter().zip(amps.iter()) {
        let start = (t0 * rate as f64).round() as i64;
        for t in 0..klen {
            let idx = start + t as i64;
            if idx >= 0 && (idx as usize) < n {
                let env = (-(t as f64) / tau).exp();
                let osc = (2.0 * std::f64::consts::PI * 100.0 * t as f64 / rate as f64).sin();
                let v = sig[idx as usize] + (*a as f64 * env * osc) as i32;
                sig[idx as usize] = v.clamp(-32768, 32767);
            }
        }
    }
    sig.into_iter().map(|v| v as i16).collect()
}

fn steady_kicks(rate: u32, bpm: f64, start: f64, end: f64, total: f64) -> Vec<i16> {
    let ts = beats(bpm, start, end);
    let amps = vec![30000; ts.len()];
    kicks(rate, &ts, &amps, (total * rate as f64) as usize, 10000, 3000.0)
}

struct Step {
    index: usize,
    now: u64,
    result: Option<AnalysisResult>,
    reference_before: u64,
    coarse_full_after: bool,
}

fn run_on(a: &mut BpmAnalyzer, sig: &[i16], batch: usize) -> Vec<Step> {
    let rate = a.input_rate() as u64;
    let mut steps = Vec::new();
    for b in 0..sig.len() / batch {
        let chunk = &sig[b * batch..(b + 1) * batch];
        let now = ((b + 1) * batch) as u64 * 1000 / rate;
        assert!(a.accepts_time(now));
        let reference_before = a.reference();
        let result = a.process(chunk, chunk, now);
        let (_, coarse_len, _) = a.buffer_lens();
        let (_, coarse_cap) = a.capacities();
        steps.push(Step { index: b, now, result, reference_before, coarse_full_after: coarse_len == coarse_cap });
    }
    steps
}

fn run(sig: &[i16], rate: u32, batch: usize) -> (BpmAnalyzer, Vec<Step>) {
    let mut a = BpmAnalyzer::new(rate, None).unwrap();
    let steps = run_on(&mut a, sig, batch);
    (a, steps)
}

fn estimates(steps: &[Step]) -> Vec<AnalysisResult> {
    steps.iter().filter_map(|s| s.result).collect()
}

fn check_click_train(bpm: f64) {
    let target = (bpm * 10.0).round() as i64;
    let sig = steady_kicks(44100, bpm, 2.5, 8.0, 8.0);
    let (_, steps) = run(&sig, 44100, BATCH);
    let est = estimates(&steps);
    assert!(!est.is_empty());
    assert!(est[0].is_drop);
    for e in &est {
        assert!((e.bpm as i64 - target).abs() <= 2, "bpm {} for {}", e.bpm, target);
    }
}

#[test]
fn click_train_90_bpm() {
    check_click_train(90.0);
}

#[test]
fn click_train_120_bpm() {
    check_click_train(120.0);
}

#[test]
fn click_train_140_bpm() {
    check_click_train(140.0);
}

#[test]
fn click_train_174_bpm() {
    check_click_train(174.0);
}

#[test]
fn click_train_200_bpm() {
    check_click_train(200.0);
}

#[test]
fn click_train_280_bpm() {
    check_click_train(280.0);
}

#[test]
fn silence_gives_nothing() {
    let sig = vec![0i16; 100 * BATCH];
    let (a, steps) = run(&sig, 44100, BATCH);
    assert!(steps.iter().all(|s| s.result.is_none()));
    assert_eq!(a.reference(), 0);
    assert_eq!(a.history_len(), 0);
}

#[test]
fn white_noise_has_low_confidence() {
    let mut x: u64 = 12345;
    let mut sig = Vec::new();
    for _ in 0..(8 * 44100) {
        x = x.wrapping_mul(6364136223846793005).wrapping_add(1442695040888963407);
        sig.push((((x >> 33) % 65536) as i64 - 32768) as i16);
    }
    let (a, steps) = run(&sig, 44100, BATCH);
    for e in estimates(&steps) {
        assert!(e.confidence < 600000);
    }
    assert_eq!(a.reference(), 0);
}

#[test]
fn accented_80_bpm_is_not_halved() {
    let ts = beats(80.0, 2.5, 9.0);
    let amps: Vec<i32> = (0..ts.len()).map(|i| if i % 4 == 0 { 30000 } else { 15000 }).collect();
    let sig = kicks(44100, &ts, &amps, 9 * 44100, 10000, 3000.0);
    let (_, steps) = run(&sig, 44100, BATCH);
    let est = estimates(&steps);
    assert!(!est.is_empty());
    for e in &est {
        assert!((e.bpm as i64 - 800).abs() <= 2, "bpm {}", e.bpm);
    }
}

#[test]
fn first_estimate_of_kick_at_120() {
    let sig = steady_kicks(44100, 120.0, 2.5, 8.0, 8.0);
    let (_, steps) = run(&sig, 44100, BATCH);
    let first = steps.iter().find(|s| s.result.is_some()).unwrap();
    let r = first.result.unwrap();
    assert!(first.coarse_full_after);
    assert!(steps.iter().take(first.index).all(|s| s.result.is_none()));
    assert!((r.bpm as i64 - 1200).abs() <= 1);
    assert!(r.is_drop);
    assert!(r.confidence >= 500000);
    assert!(r.energy <= 1000000);
    // A drop looks for the beat in the last quarter of the window.
    assert!(r.beat_offset <= 1000000);
}

#[test]
fn silence_clears_reference_and_relocks_on_drop() {
    let mut ts = beats(120.0, 2.5, 7.5);
    ts.extend(beats(120.0, 19.5, 25.0));
    let amps = vec![30000; ts.len()];
    let sig = kicks(44100, &ts, &amps, 25 * 44100, 10000, 3000.0);
    let (a, steps) = run(&sig, 44100, BATCH);
    let before: Vec<&Step> = steps.iter().filter(|s| s.now < 9000 && s.result.is_some()).collect();
    assert!(!before.is_empty());
    let relock = steps.iter().find(|s| s.now > 19500 && s.result.is_some()).unwrap();
    let r = relock.result.unwrap();
    assert!(r.is_drop);
    assert_eq!(relock.reference_before, 0);
    assert!((r.bpm as i64 - 1200).abs() <= 1);
    assert!(a.reference() > 0);
}

#[test]
fn tempo_change_without_drop_is_rejected() {
    let mut ts = beats(120.0, 2.5, 7.0);
    ts.extend(beats(180.0, 7.0, 13.0));
    let amps = vec![30000; ts.len()];
    let sig = kicks(44100, &ts, &amps, 13 * 44100, 10000, 3000.0);
    let (a, steps) = run(&sig, 44100, BATCH);
    assert!(estimates(&steps).iter().any(|e| (e.bpm as i64 - 1200).abs() <= 1));
    for s in steps.iter().filter(|s| s.now > 9000) {
        assert!(s.result.is_none());
    }
    assert!((a.reference() as i64 - 1200).abs() <= 1);
}

#[test]
fn octave_correction_promotes_240() {
    let ts = beats(240.0, 2.5, 8.0);
    let amps: Vec<i32> = (0..ts.len()).map(|i| if i % 2 == 0 { 30000 } else { 15000 }).collect();
    let sig = kicks(44100, &ts, &amps, 8 * 44100, 4000, 1200.0);
    let (_, steps) = run(&sig, 44100, BATCH);
    let est = estimates(&steps);
    assert!(!est.is_empty());
    for e in &est {
        assert!((e.bpm as i64 - 2400).abs() <= 2, "bpm {}", e.bpm);
    }
}

#[test]
fn fractional_tempo_is_refined() {
    let sig = steady_kicks(44100, 131.7, 2.5, 8.0, 8.0);
    let (_, steps) = run(&sig, 44100, BATCH);
    let est = estimates(&steps);
    assert!(!est.is_empty());
    for e in &est {
        assert!((e.bpm as i64 - 1317).abs() <= 1, "bpm {}", e.bpm);
    }
}

#[test]
fn rate_change_rebuilds_and_refills() {
    let mut a = BpmAnalyzer::new(44100, None).unwrap();
    let first = steady_kicks(44100, 120.0, 0.0, 2.0, 2.0);
    run_on(&mut a, &first, BATCH);
    let mut b = BpmAnalyzer::new(16000, None).unwrap();
    assert_eq!(b.capacities(), (64000, 2909));
    let ts = beats(120.0, 2.5, 9.0);
    let amps = vec![30000; ts.len()];
    let sig = kicks(16000, &ts, &amps, 9 * 16000, 4000, 1100.0);
    let steps = run_on(&mut b, &sig, 2046);
    let first_some = steps.iter().find(|s| s.result.is_some()).unwrap();
    assert!(first_some.coarse_full_after);
    for s in steps.iter().take_while(|s| !s.coarse_full_after) {
        assert!(s.result.is_none());
    }
    assert!((first_some.result.unwrap().bpm as i64 - 1200).abs() <= 2);
}

/// The 50-250 Hz fourth-order band-pass that runs before the analyser.
fn band_pass(sig: &[i16], rate: u32) -> Vec<i16> {
    let section = |kind: Type<f32>, f0: f32| {
        let c = Coefficients::<f32>::from_params(
            kind,
            Hertz::<f32>::from_hz(rate as f32).unwrap(),
            Hertz::<f32>::from_hz(f0).unwrap(),
            Q_BUTTERWORTH_F32,
        )
        .unwrap();
        DirectForm2Transposed::<f32>::new(c)
    };
    let mut chain = vec![
        section(Type::HighPass, 50.0),
        section(Type::LowPass, 250.0),
        section(Type::HighPass, 50.0),
        section(Type::LowPass, 250.0),
    ];
    sig.iter()
        .map(|v| {
            let mut x = *v as f32 / 32767.0;
            for f in chain.iter_mut() {
                x = f.run(x);
            }
            (x * 32767.0).round().clamp(-32768.0, 32767.0) as i16
        })
        .collect()
}

fn run_filtered(raw: &[i16], rate: u32, batch: usize) -> Vec<Option<AnalysisResult>> {
    let filtered = band_pass(raw, rate);
    let mut a = BpmAnalyzer::new(rate, None).unwrap();
    let mut out = Vec::new();
    for b in 0..raw.len() / batch {
        let now = ((b + 1) * batch) as u64 * 1000 / rate as u64;
        out.push(a.process(&filtered[b * batch..(b + 1) * batch], &raw[b * batch..(b + 1) * batch], now));
    }
    out
}

#[test]
fn partial_groups_of_a_2048_batch() {
    let mut a = BpmAnalyzer::new(44100, None).unwrap();
    let batch = vec![1000i16; 2048];
    assert_eq!(a.process(&batch, &batch, 46), None);
    // 512 fine values, then 23 full groups of 22 and one of 6.
    assert_eq!(a.buffer_lens(), (512, 24, 512));
    assert_eq!(a.process(&batch, &batch, 92), None);
    assert_eq!(a.buffer_lens(), (1024, 48, 1024));
}

/// With 2048-sample batches every batch ends in a partial coarse group, which
/// runs the coarse clock about 3% fast; the fine search around it then lands
/// a few percent under the true tempo.
fn check_filtered_2048(bpm: f64) {
    let ts = beats(bpm, 2.5, 8.0);
    let amps = vec![30000; ts.len()];
    let raw = kicks(44100, &ts, &amps, 8 * 44100, 10000, 3000.0);
    let est: Vec<AnalysisResult> = run_filtered(&raw, 44100, 2048).into_iter().flatten().collect();
    assert!(!est.is_empty());
    assert!(est[0].is_drop);
    assert!(est[0].confidence >= 500000);
    let target = bpm * 10.0;
    for e in &est {
        let err = (e.bpm as f64 - target).abs() / target;
        assert!(err <= 0.05, "bpm {} for {}", e.bpm, target);
    }
}

#[test]
fn filtered_kick_120_in_2048_batches() {
    check_filtered_2048(120.0);
}

#[test]
fn filtered_kick_140_in_2048_batches() {
    check_filtered_2048(140.0);
}

#[test]
fn filtered_silence_in_2048_batches() {
    let raw = vec![0i16; 100 * 2048];
    assert!(run_filtered(&raw, 44100, 2048).iter().all(|r| r.is_none()));
}

#[test]
fn filtered_kick_120_in_aligned_batches() {
    let ts = beats(120.0, 2.5, 8.0);
    let amps = vec![30000; ts.len()];
    let raw = kicks(44100, &ts, &amps, 8 * 44100, 10000, 3000.0);
    let est: Vec<AnalysisResult> = run_filtered(&raw, 44100, BATCH).into_iter().flatten().collect();
    assert!(!est.is_empty());
    assert!(est[0].is_drop);
    for e in &est {
        assert!((e.bpm as i64 - 1200).abs() <= 20, "bpm {}", e.bpm);
    }
}
