//! The analyser: one call per batch of samples, at most one tempo estimate out.
//!
//! The band-pass filtering of the input happens before the analyser; it takes
//! each batch twice, as the filtered and as the raw signal, both as 16-bit
//! samples (32768 stands for 1.0).

use crate::correlation::{
    below, check_harmonics, confidence_of, harmonic_lag, lag_to_tenths, lemma_scan_best,
    parabolic_interpolation, refined_lag, scan_best, search_correlation, search_end, search_start,
    sum_sq, tempo_tenths, MAX_WINDOW, PPM,
};
use crate::multirate::{capacity_for, chunk_means, decimate, lag_for, seg_sum, SamplingConfig};
use crate::ring::{keep_last, RingBuffer};
use crate::smoother::{
    bpms_of, mean_energy, median_of, step_accepts, step_history, step_lock, BpmHistoryEntry,
    LockState, SmootherConfig, TempoSmoother, MAX_TENTHS,
};
use crate::window::{
    centered, check_drop, drop_detected, energy_mean_of, normalize_window, normalized, peak_index,
    scan_peak,
};
use vstd::prelude::*;

verus! {

/// Fine values averaged into one coarse value.
pub const COARSE_STEP: usize = 22;

/// The square of the unit of a 16-bit sample.
pub const SAMPLE_UNIT_SQ: u64 = 1073741824;

/// Minimum confidences of the two search stages, in parts per million.
#[derive(Clone, Copy, Debug, PartialEq, Eq, Structural)]
pub struct ConfidenceThreshold {
    pub fine_confidence: u64,
    pub coarse_confidence: u64,
}

/// The analyser's settings. Ratios, confidences and energies are in parts per
/// million.
#[derive(Clone, Copy, Debug, PartialEq, Eq, Structural)]
pub struct BpmAnalyzerConfig {
    /// Seconds of signal the buffers hold.
    pub window_secs: u32,
    pub min_bpm: u32,
    pub max_bpm: u32,
    pub thresholds: ConfidenceThreshold,
    /// Octave correction: share of the peak correlation that the half lag must exceed.
    pub half_ratio: u32,
    /// Octave correction: share of the peak correlation that the third lag must exceed.
    pub third_ratio: u32,
    /// Drop: recent to earlier energy ratio that must be exceeded.
    pub drop_ratio: u32,
    /// Drop: recent energy that must be exceeded.
    pub drop_floor: u32,
    /// Drop: fine confidence that must be exceeded.
    pub drop_confidence: u64,
    pub gate_ratio: u32,
    pub gate_floor: u64,
    pub silence_ms: u64,
    pub history_len: usize,
    /// Fine lags searched on each side of the coarse estimate.
    pub search_radius: usize,
    /// Mean power of the raw signal under which a batch is ignored.
    pub noise_floor: u32,
    /// Band-pass cutoffs of the input filter, in hertz.
    pub low_cut_hz: u32,
    pub high_cut_hz: u32,
}

pub open spec fn default_config() -> BpmAnalyzerConfig {
    BpmAnalyzerConfig {
        window_secs: 4,
        min_bpm: 60,
        max_bpm: 310,
        thresholds: ConfidenceThreshold { fine_confidence: 300000, coarse_confidence: 400000 },
        half_ratio: 500000,
        third_ratio: 600000,
        drop_ratio: 1500000,
        drop_floor: 10000,
        drop_confidence: 500000,
        gate_ratio: 900000,
        gate_floor: 30000,
        silence_ms: 10000,
        history_len: 5,
        search_radius: 50,
        noise_floor: 5000,
        low_cut_hz: 50,
        high_cut_hz: 250,
    }
}

impl Default for BpmAnalyzerConfig {
    fn default() -> (r: Self)
        ensures
            r == default_config(),
    {
        BpmAnalyzerConfig {
            window_secs: 4,
            min_bpm: 60,
            max_bpm: 310,
            thresholds: ConfidenceThreshold { fine_confidence: 300000, coarse_confidence: 400000 },
            half_ratio: 500000,
            third_ratio: 600000,
            drop_ratio: 1500000,
            drop_floor: 10000,
            drop_confidence: 500000,
            gate_ratio: 900000,
            gate_floor: 30000,
            silence_ms: 10000,
            history_len: 5,
            search_radius: 50,
            noise_floor: 5000,
            low_cut_hz: 50,
            high_cut_hz: 250,
        }
    }
}

/// Why an analyser could not be built.
#[derive(Clone, Copy, Debug, PartialEq, Eq, Structural)]
pub enum ConstructionError {
    /// The input rate is 0, or so high that sixty seconds of it overflow `usize`.
    InvalidSampleRate,
    /// A filter cutoff is 0 or not below the Nyquist frequency.
    CutoffAboveNyquist,
    /// The window is empty at the coarse rate or longer than `MAX_WINDOW` fine
    /// values, or the search radius exceeds `MAX_WINDOW`.
    InvalidWindow,
    /// A tempo bound is 0.
    InvalidTempoRange,
    /// The history length is 0.
    InvalidHistory,
}

/// Input samples averaged into one fine value: 4 from 44.1 kHz up, else 1.
pub open spec fn fine_step_for(rate: u32) -> int {
    if rate >= 44100 {
        4
    } else {
        1
    }
}

/// The first setting that makes an analyser impossible, if any.
pub open spec fn construction_error(rate: u32, cfg: BpmAnalyzerConfig) -> Option<ConstructionError> {
    let step = fine_step_for(rate);
    if rate == 0 || rate * 60 > usize::MAX {
        Some(ConstructionError::InvalidSampleRate)
    } else if cfg.low_cut_hz == 0 || cfg.high_cut_hz == 0 || 2 * cfg.low_cut_hz >= rate || 2
        * cfg.high_cut_hz >= rate {
        Some(ConstructionError::CutoffAboveNyquist)
    } else if cfg.window_secs == 0 || capacity_for(
        rate as int,
        step * COARSE_STEP,
        cfg.window_secs as int,
    ) == 0 || capacity_for(rate as int, step, cfg.window_secs as int) > MAX_WINDOW
        || cfg.search_radius > MAX_WINDOW {
        Some(ConstructionError::InvalidWindow)
    } else if cfg.min_bpm == 0 || cfg.max_bpm == 0 {
        Some(ConstructionError::InvalidTempoRange)
    } else if cfg.history_len == 0 {
        Some(ConstructionError::InvalidHistory)
    } else {
        None
    }
}

/// The smoother's share of the settings.
pub open spec fn smoother_config(cfg: BpmAnalyzerConfig) -> SmootherConfig {
    SmootherConfig {
        history_len: cfg.history_len,
        silence_ms: cfg.silence_ms,
        gate_ratio: cfg.gate_ratio,
        gate_floor: cfg.gate_floor,
    }
}

/// What an analyser fixes at construction.
#[derive(Clone, Copy, Debug, PartialEq, Eq, Structural)]
pub struct AnalyzerSettings {
    pub config: BpmAnalyzerConfig,
    pub input_rate: u32,
    pub fine_step: usize,
    pub fine_capacity: usize,
    pub coarse_capacity: usize,
    pub coarse_min_lag: usize,
    pub coarse_max_lag: usize,
    /// The lag range of the tempo range at the fine rate.
    pub fine_min_lag: usize,
    pub fine_max_lag: usize,
}

/// The settings an analyser built at `rate` with `cfg` has.
pub open spec fn settings_for(rate: u32, cfg: BpmAnalyzerConfig) -> AnalyzerSettings {
    let step = fine_step_for(rate);
    AnalyzerSettings {
        config: cfg,
        input_rate: rate,
        fine_step: step as usize,
        fine_capacity: capacity_for(rate as int, step, cfg.window_secs as int) as usize,
        coarse_capacity: capacity_for(rate as int, step * COARSE_STEP, cfg.window_secs as int) as usize,
        coarse_min_lag: lag_for(rate as int, step * COARSE_STEP, cfg.max_bpm as int) as usize,
        coarse_max_lag: lag_for(rate as int, step * COARSE_STEP, cfg.min_bpm as int) as usize,
        fine_min_lag: lag_for(rate as int, step, cfg.max_bpm as int) as usize,
        fine_max_lag: lag_for(rate as int, step, cfg.min_bpm as int) as usize,
    }
}

/// One estimate of the analyser: the smoothed tempo and energy of the recent
/// history, with the confidences, drop flag, energy and beat offset of the
/// current batch.
#[derive(Clone, Copy, Debug, PartialEq, Eq, Structural)]
pub struct AnalysisResult {
    /// Median tempo of the recent estimates, in tenths of a beat per minute.
    pub bpm: u64,
    pub is_drop: bool,
    /// Fine-stage confidence, in parts per million.
    pub confidence: u64,
    /// Coarse-stage confidence, in parts per million.
    pub coarse_confidence: u64,
    /// Energy per sample of the fine window, in parts per million.
    pub energy: u64,
    /// Mean energy of the recent estimates, in parts per million.
    pub average_energy: u64,
    /// Time since the most recent envelope peak, in microseconds.
    pub beat_offset: u64,
}

/// `|s[i]|` for every sample.
pub open spec fn rectified(s: Seq<i16>) -> Seq<u32> {
    Seq::new(s.len(), |i: int| (if s[i] < 0 { -s[i] } else { s[i] as int }) as u32)
}

/// `s[i]^2` for every sample.
pub open spec fn squared(s: Seq<i16>) -> Seq<u32> {
    Seq::new(s.len(), |i: int| (s[i] * s[i]) as u32)
}

/// Whether the mean power of the raw buffer is under `floor` (parts per million).
pub open spec fn is_quiet(raw: Seq<u32>, floor: u32) -> bool {
    seg_sum(raw, 0, raw.len() as int) * PPM < floor * raw.len() * SAMPLE_UNIT_SQ
}

/// The fine lags searched around a coarse lag: `center - radius ..= center + radius`,
/// the lower end saturating at 0.
pub open spec fn fine_lo(center: int, radius: int) -> int {
    if center > radius {
        center - radius
    } else {
        0
    }
}

/// The estimate the coarse and fine windows give, before the smoother; `None`
/// when either search finds no positive correlation or too low a confidence.
pub open spec fn estimate(st: AnalyzerSettings, coarse: Seq<u32>, fine: Seq<u32>) -> Option<
    AnalysisResult,
> {
    let cfg = st.config;
    let cx = centered(coarse);
    let lo_c = search_start(st.coarse_min_lag as int);
    let hi_c = search_end(st.coarse_max_lag as int, cx.len() as int);
    let best_c = scan_best(cx, lo_c, hi_c);
    let conf_c = confidence_of(best_c.1, sum_sq(cx));
    let lag_h = harmonic_lag(
        cx,
        best_c.0,
        best_c.1,
        st.coarse_min_lag as int,
        cfg.half_ratio as int,
        cfg.third_ratio as int,
    );
    let center = lag_h * COARSE_STEP;
    let v = normalized(fine);
    let c = centered(fine);
    let n = c.len() as int;
    let lo_f = search_start(fine_lo(center, cfg.search_radius as int));
    let hi_f = search_end(center + cfg.search_radius, n);
    let best_f = scan_best(c, lo_f, hi_f);
    let conf_f = confidence_of(best_f.1, sum_sq(c));
    let lag = refined_lag(c, best_f.0, best_f.1, lo_f, hi_f);
    let bpm = tempo_tenths(st.input_rate as int, st.fine_step as int, lag.0, lag.1);
    let is_drop = conf_f > cfg.drop_confidence && drop_detected(
        v,
        cfg.drop_ratio as int,
        cfg.drop_floor as int,
    );
    let start = if is_drop {
        n * 3 / 4
    } else {
        0
    };
    let p = scan_peak(v, start, n).0;
    let since = if below(n) > p {
        below(n) - p
    } else {
        0
    };
    if best_c.1 == 0 || conf_c < cfg.thresholds.coarse_confidence || best_f.1 == 0 || conf_f
        < cfg.thresholds.fine_confidence || bpm == 0 {
        None
    } else {
        Some(
            AnalysisResult {
                bpm: bpm as u64,
                is_drop,
                confidence: conf_f as u64,
                coarse_confidence: conf_c as u64,
                energy: energy_mean_of(sum_sq(c), n) as u64,
                average_energy: 0,
                beat_offset: (since * 1000000 * st.fine_step / (st.input_rate as int)) as u64,
            },
        )
    }
}

/// The real-time tempo analyser.
pub struct BpmAnalyzer {
    settings: AnalyzerSettings,
    fine_config: SamplingConfig,
    coarse_config: SamplingConfig,
    raw_buffer: RingBuffer<u32>,
    smoother: TempoSmoother,
    scratch_rectified: Vec<u32>,
    scratch_squared: Vec<u32>,
    scratch_processing: Vec<u32>,
    scratch_raw: Vec<u32>,
    scratch_coarse_in: Vec<u32>,
    scratch_fine_vec: Vec<i64>,
    scratch_fine_centered: Vec<i64>,
    scratch_coarse_vec: Vec<i64>,
    scratch_coarse_centered: Vec<i64>,
}

impl BpmAnalyzer {
    pub closed spec fn settings(&self) -> AnalyzerSettings {
        self.settings
    }

    pub closed spec fn fine_view(&self) -> Seq<u32> {
        self.fine_config.buffer.view()
    }

    pub closed spec fn coarse_view(&self) -> Seq<u32> {
        self.coarse_config.buffer.view()
    }

    pub closed spec fn raw_view(&self) -> Seq<u32> {
        self.raw_buffer.view()
    }

    pub closed spec fn history_view(&self) -> Seq<BpmHistoryEntry> {
        self.smoother.history_view()
    }

    pub closed spec fn lock_view(&self) -> LockState {
        self.smoother.lock_view()
    }

    pub closed spec fn wf(&self) -> bool {
        let st = self.settings;
        let cfg = st.config;
        &&& construction_error(st.input_rate, cfg).is_none()
        &&& st == settings_for(st.input_rate, cfg)
        &&& self.fine_config.wf()
        &&& self.coarse_config.wf()
        &&& self.raw_buffer.wf()
        &&& self.smoother.wf()
        &&& self.smoother.cfg() == smoother_config(cfg)
        &&& self.fine_config.step == st.fine_step
        &&& self.fine_config.min_lag == st.fine_min_lag
        &&& self.fine_config.max_lag == st.fine_max_lag
        &&& self.coarse_config.step == COARSE_STEP
        &&& self.coarse_config.min_lag == st.coarse_min_lag
        &&& self.coarse_config.max_lag == st.coarse_max_lag
        &&& self.fine_config.buffer.cap() == st.fine_capacity
        &&& self.raw_buffer.cap() == st.fine_capacity
        &&& self.coarse_config.buffer.cap() == st.coarse_capacity
    }

    /// Whether `now` is later than every accepted estimate.
    pub open spec fn time_ok(&self, now: u64) -> bool {
        self.history_view().len() > 0 ==> self.history_view().last().timestamp < now
    }

    /// Whether `now` may be handed to `process`: it is later than every
    /// accepted estimate.
    pub fn accepts_time(&self, now: u64) -> (r: bool)
        requires
            self.wf(),
        ensures
            r == self.time_ok(now),
    {
        self.smoother.accepts_time(now)
    }

    /// The reference tempo in tenths of a beat per minute, 0 when unlocked.
    pub fn reference(&self) -> (r: u64)
        ensures
            r == crate::smoother::reference_of(self.lock_view()),
    {
        self.smoother.reference()
    }

    /// How many accepted estimates the history holds.
    pub fn history_len(&self) -> (r: usize)
        requires
            self.wf(),
        ensures
            r == self.history_view().len(),
    {
        self.smoother.history_len()
    }

    /// Everything fixed at construction: rates, capacities and lag ranges.
    pub fn analyzer_settings(&self) -> (r: AnalyzerSettings)
        ensures
            r == self.settings(),
    {
        self.settings
    }

    pub fn config(&self) -> (r: BpmAnalyzerConfig)
        ensures
            r == self.settings().config,
    {
        self.settings.config
    }

    pub fn input_rate(&self) -> (r: u32)
        ensures
            r == self.settings().input_rate,
    {
        self.settings.input_rate
    }

    /// Lengths of the fine, coarse and raw buffers.
    pub fn buffer_lens(&self) -> (r: (usize, usize, usize))
        requires
            self.wf(),
        ensures
            r == (self.fine_view().len() as usize, self.coarse_view().len() as usize, self.raw_view().len() as usize),
    {
        (self.fine_config.buffer.len(), self.coarse_config.buffer.len(), self.raw_buffer.len())
    }

    /// Capacities of the fine and coarse buffers (the raw one matches the fine).
    pub fn capacities(&self) -> (r: (usize, usize))
        requires
            self.wf(),
        ensures
            r == (self.settings().fine_capacity, self.settings().coarse_capacity),
    {
        (self.settings.fine_capacity, self.settings.coarse_capacity)
    }

    /// Builds an analyser for input at `sample_rate` samples per second, with
    /// `config` or the default settings.
    pub fn new(sample_rate: u32, config: Option<BpmAnalyzerConfig>) -> (r: Result<
        Self,
        ConstructionError,
    >)
        ensures
            ({
                let cfg = match config {
                    Some(c) => c,
                    None => default_config(),
                };
                match construction_error(sample_rate, cfg) {
                    Some(e) => r == Err::<Self, ConstructionError>(e),
                    None => {
                        &&& r is Ok
                        &&& r.unwrap().wf()
                        &&& r.unwrap().settings() == settings_for(sample_rate, cfg)
                        &&& r.unwrap().fine_view().len() == 0
                        &&& r.unwrap().coarse_view().len() == 0
                        &&& r.unwrap().raw_view().len() == 0
                        &&& r.unwrap().history_view().len() == 0
                        &&& r.unwrap().lock_view() == LockState::Unlocked
                    },
                }
            }),
    {
        let cfg = match config {
            Some(c) => c,
            None => BpmAnalyzerConfig::default(),
        };
        if sample_rate == 0 || (sample_rate as u128) * 60 > usize::MAX as u128 {
            return Err(ConstructionError::InvalidSampleRate);
        }
        let rate = sample_rate as u64;
        if cfg.low_cut_hz == 0 || cfg.high_cut_hz == 0 || 2 * (cfg.low_cut_hz as u64) >= rate || 2
            * (cfg.high_cut_hz as u64) >= rate {
            return Err(ConstructionError::CutoffAboveNyquist);
        }
        let fine_step: u32 = if sample_rate >= 44100 {
            4
        } else {
            1
        };
        let window = cfg.window_secs as u64;
        proof {
            assert(rate * window <= 0xffff_ffff * 0xffff_ffff) by (nonlinear_arith)
                requires
                    rate <= 0xffff_ffff,
                    window <= 0xffff_ffff,
            ;
        }
        let fine_capacity = rate * window / (fine_step as u64);
        let coarse_capacity = rate * window / ((fine_step as u64) * (COARSE_STEP as u64));
        if cfg.window_secs == 0 || coarse_capacity == 0
            || fine_capacity > MAX_WINDOW as u64 || cfg.search_radius > MAX_WINDOW {
            return Err(ConstructionError::InvalidWindow);
        }
        if cfg.min_bpm == 0 || cfg.max_bpm == 0 {
            return Err(ConstructionError::InvalidTempoRange);
        }
        if cfg.history_len == 0 {
            return Err(ConstructionError::InvalidHistory);
        }
        proof {
            let x = rate * window;
            vstd::arithmetic::div_mod::lemma_div_is_ordered_by_denominator(
                x as int,
                fine_step as int,
                fine_step * COARSE_STEP,
            );
            lemma_lag_bound(rate as int, fine_step as int, cfg.max_bpm as int);
            lemma_lag_bound(rate as int, fine_step as int, cfg.min_bpm as int);
            lemma_lag_bound(rate as int, fine_step * COARSE_STEP, cfg.max_bpm as int);
            lemma_lag_bound(rate as int, fine_step * COARSE_STEP, cfg.min_bpm as int);
        }
        let fine_config = SamplingConfig::new(
            sample_rate,
            fine_step,
            cfg.window_secs,
            fine_step as usize,
            cfg.min_bpm,
            cfg.max_bpm,
        );
        let coarse_config = SamplingConfig::new(
            sample_rate,
            fine_step * (COARSE_STEP as u32),
            cfg.window_secs,
            COARSE_STEP,
            cfg.min_bpm,
            cfg.max_bpm,
        );
        let smoother = TempoSmoother::new(
            SmootherConfig {
                history_len: cfg.history_len,
                silence_ms: cfg.silence_ms,
                gate_ratio: cfg.gate_ratio,
                gate_floor: cfg.gate_floor,
            },
        );
        let settings = AnalyzerSettings {
            config: cfg,
            input_rate: sample_rate,
            fine_step: fine_step as usize,
            fine_capacity: fine_capacity as usize,
            coarse_capacity: coarse_capacity as usize,
            coarse_min_lag: coarse_config.min_lag,
            coarse_max_lag: coarse_config.max_lag,
            fine_min_lag: fine_config.min_lag,
            fine_max_lag: fine_config.max_lag,
        };
        Ok(
            BpmAnalyzer {
                settings,
                fine_config,
                coarse_config,
                raw_buffer: RingBuffer::new(fine_capacity as usize),
                smoother,
                scratch_rectified: Vec::new(),
                scratch_squared: Vec::new(),
                scratch_processing: Vec::new(),
                scratch_raw: Vec::new(),
                scratch_coarse_in: Vec::new(),
                scratch_fine_vec: Vec::new(),
                scratch_fine_centered: Vec::new(),
                scratch_coarse_vec: Vec::new(),
                scratch_coarse_centered: Vec::new(),
            },
        )
    }

    /// The coarse stage: the first lag of greatest correlation of the coarse
    /// window, corrected for octave errors, with its confidence.
    fn coarse_lag(&mut self) -> (r: Option<(usize, u64)>)
        requires
            old(self).wf(),
        ensures
            final(self).wf(),
            final(self).settings == old(self).settings,
            final(self).fine_config == old(self).fine_config,
            final(self).coarse_config == old(self).coarse_config,
            final(self).raw_buffer == old(self).raw_buffer,
            final(self).smoother == old(self).smoother,
            ({
                let st = old(self).settings;
                let cfg = st.config;
                let cx = centered(old(self).coarse_view());
                let lo_c = search_start(st.coarse_min_lag as int);
                let hi_c = search_end(st.coarse_max_lag as int, cx.len() as int);
                let best_c = scan_best(cx, lo_c, hi_c);
                let conf_c = confidence_of(best_c.1, sum_sq(cx));
                if best_c.1 == 0 || conf_c < cfg.thresholds.coarse_confidence {
                    r is None
                } else {
                    &&& r is Some
                    &&& r.unwrap().0 == harmonic_lag(
                        cx,
                        best_c.0,
                        best_c.1,
                        st.coarse_min_lag as int,
                        cfg.half_ratio as int,
                        cfg.third_ratio as int,
                    )
                    &&& r.unwrap().0 < MAX_WINDOW
                    &&& r.unwrap().1 == conf_c
                }
            }),
    {
        let ghost st = self.settings;
        proof {
            self.coarse_config.buffer.lemma_len_bound();
            self.fine_config.buffer.lemma_len_bound();
            vstd::arithmetic::div_mod::lemma_div_is_ordered_by_denominator(
                st.input_rate * st.config.window_secs,
                st.fine_step as int,
                st.fine_step * COARSE_STEP,
            );
        }
        let cfg = self.settings.config;
        let norm_c = normalize_window(
            &self.coarse_config.buffer,
            &mut self.scratch_coarse_vec,
            &mut self.scratch_coarse_centered,
        );
        let coarse = match search_correlation(
            &self.scratch_coarse_centered,
            norm_c.energy_sum,
            self.coarse_config.min_lag,
            self.coarse_config.max_lag,
            cfg.thresholds.coarse_confidence,
        ) {
            Ok(e) => e,
            Err(_) => {
                return None;
            },
        };
        let best_lag_c = check_harmonics(
            coarse.lag,
            coarse.correlation,
            &self.scratch_coarse_centered,
            self.coarse_config.min_lag,
            cfg.half_ratio,
            cfg.third_ratio,
        );
        Some((best_lag_c, coarse.confidence))
    }

    /// The fine stage around the coarse lag `best_lag_c`: search, parabolic
    /// refinement, tempo, drop test and beat offset.
    fn fine_estimate(&mut self, best_lag_c: usize, coarse_confidence: u64) -> (r: Option<AnalysisResult>)
        requires
            old(self).wf(),
            best_lag_c < MAX_WINDOW,
        ensures
            final(self).wf(),
            final(self).settings == old(self).settings,
            final(self).fine_config == old(self).fine_config,
            final(self).coarse_config == old(self).coarse_config,
            final(self).raw_buffer == old(self).raw_buffer,
            final(self).smoother == old(self).smoother,
            ({
                let st = old(self).settings;
                let cfg = st.config;
                let center = best_lag_c * COARSE_STEP;
                let v = normalized(old(self).fine_view());
                let c = centered(old(self).fine_view());
                let n = c.len() as int;
                let lo_f = search_start(fine_lo(center, cfg.search_radius as int));
                let hi_f = search_end(center + cfg.search_radius, n);
                let best_f = scan_best(c, lo_f, hi_f);
                let conf_f = confidence_of(best_f.1, sum_sq(c));
                let lag = refined_lag(c, best_f.0, best_f.1, lo_f, hi_f);
                let bpm = tempo_tenths(st.input_rate as int, st.fine_step as int, lag.0, lag.1);
                let is_drop = conf_f > cfg.drop_confidence && drop_detected(
                    v,
                    cfg.drop_ratio as int,
                    cfg.drop_floor as int,
                );
                let start = if is_drop {
                    n * 3 / 4
                } else {
                    0
                };
                let p = scan_peak(v, start, n).0;
                let since = if below(n) > p {
                    below(n) - p
                } else {
                    0
                };
                if best_f.1 == 0 || conf_f < cfg.thresholds.fine_confidence || bpm == 0 {
                    r is None
                } else {
                    &&& r == Some(
                        AnalysisResult {
                            bpm: bpm as u64,
                            is_drop,
                            confidence: conf_f as u64,
                            coarse_confidence,
                            energy: energy_mean_of(sum_sq(c), n) as u64,
                            average_energy: 0,
                            beat_offset: (since * 1000000 * st.fine_step / (
                            st.input_rate as int)) as u64,
                        },
                    )
                    &&& 0 < bpm <= MAX_TENTHS
                    &&& 0 <= energy_mean_of(sum_sq(c), n) <= PPM
                }
            }),
    {
        let ghost st = self.settings;
        proof {
            self.fine_config.buffer.lemma_len_bound();
        }
        let cfg = self.settings.config;
        let center_lag_f = best_lag_c * COARSE_STEP;
        let min_lag_f = if center_lag_f > cfg.search_radius {
            center_lag_f - cfg.search_radius
        } else {
            0
        };
        let max_lag_f = center_lag_f + cfg.search_radius;
        let norm_f = normalize_window(
            &self.fine_config.buffer,
            &mut self.scratch_fine_vec,
            &mut self.scratch_fine_centered,
        );
        let fine_len = self.scratch_fine_centered.len();
        let safe_max_lag = if fine_len > 0 {
            fine_len - 1
        } else {
            0
        };
        let start_lag = if min_lag_f < 1 {
            1
        } else {
            min_lag_f
        };
        let end_lag = if max_lag_f < safe_max_lag {
            max_lag_f
        } else {
            safe_max_lag
        };
        let fine = match search_correlation(
            &self.scratch_fine_centered,
            norm_f.energy_sum,
            min_lag_f,
            max_lag_f,
            cfg.thresholds.fine_confidence,
        ) {
            Ok(e) => e,
            Err(_) => {
                return None;
            },
        };
        proof {
            lemma_scan_best(self.scratch_fine_centered@, start_lag as int, end_lag as int);
        }
        let (num, den) = parabolic_interpolation(
            fine.lag,
            fine.correlation,
            &self.scratch_fine_centered,
            start_lag,
            end_lag,
        );
        proof {
            let l = fine.lag as int;
            assert(2 * num >= den) by (nonlinear_arith)
                requires
                    (2 * l - 1) * den <= 2 * num,
                    l >= 1,
                    den > 0,
            ;
        }
        let bpm = lag_to_tenths(self.settings.input_rate, self.settings.fine_step as u32, num, den);
        // A tempo that rounds to 0.0 is far below any tempo range: no estimate.
        if bpm == 0 {
            return None;
        }
        let is_drop = fine.confidence > cfg.drop_confidence && check_drop(
            &self.scratch_fine_vec,
            cfg.drop_ratio,
            cfg.drop_floor,
        );
        let len = self.scratch_fine_vec.len();
        let search_from = if is_drop {
            len * 3 / 4
        } else {
            0
        };
        let peak = peak_index(&self.scratch_fine_vec, search_from);
        let last = if len > 0 {
            len - 1
        } else {
            0
        };
        let since = if last > peak {
            last - peak
        } else {
            0
        };
        proof {
            assert(since * 1000000 * st.fine_step <= MAX_WINDOW * 1000000 * 4) by (nonlinear_arith)
                requires
                    since <= MAX_WINDOW,
                    st.fine_step <= 4,
            ;
        }
        let beat_offset = (since as u64) * 1000000 * (self.settings.fine_step as u64) / (
        self.settings.input_rate as u64);
        Some(
            AnalysisResult {
                bpm,
                is_drop,
                confidence: fine.confidence,
                coarse_confidence,
                energy: norm_f.energy_mean,
                average_energy: 0,
                beat_offset,
            },
        )
    }

    /// Pushes one batch through the decimation chain into the three buffers.
    fn push_samples(&mut self, filtered: &[i16], raw: &[i16])
        requires
            old(self).wf(),
            filtered@.len() == raw@.len(),
            filtered@.len() <= 0x4000_0000,
        ensures
            final(self).wf(),
            final(self).settings == old(self).settings,
            final(self).smoother == old(self).smoother,
            ({
                let st = old(self).settings;
                let fine_in = chunk_means(rectified(filtered@), st.fine_step as int);
                let coarse_in = chunk_means(fine_in, COARSE_STEP as int);
                let raw_in = chunk_means(squared(raw@), st.fine_step as int);
                &&& final(self).fine_view() == keep_last(
                    old(self).fine_view() + fine_in,
                    st.fine_capacity as nat,
                )
                &&& final(self).coarse_view() == keep_last(
                    old(self).coarse_view() + coarse_in,
                    st.coarse_capacity as nat,
                )
                &&& final(self).raw_view() == keep_last(
                    old(self).raw_view() + raw_in,
                    st.fine_capacity as nat,
                )
            }),
    {
        let ghost st = self.settings;
        let n = filtered.len();
        self.scratch_rectified.clear();
        self.scratch_squared.clear();
        let mut i: usize = 0;
        while i < n
            invariant
                n == filtered@.len(),
                n == raw@.len(),
                i <= n,
                self.wf(),
                self.settings == old(self).settings,
                self.fine_config == old(self).fine_config,
                self.coarse_config == old(self).coarse_config,
                self.raw_buffer == old(self).raw_buffer,
                self.smoother == old(self).smoother,
                self.scratch_rectified@ == rectified(filtered@).subrange(0, i as int),
                self.scratch_squared@ == squared(raw@).subrange(0, i as int),
            decreases n - i,
        {
            let y = filtered[i] as i32;
            let x = raw[i] as i32;
            let a: u32 = if y < 0 {
                (-y) as u32
            } else {
                y as u32
            };
            proof {
                assert(0 <= x * x <= 0x4000_0000) by (nonlinear_arith)
                    requires
                        -32768 <= x <= 32767,
                ;
            }
            self.scratch_rectified.push(a);
            self.scratch_squared.push((x * x) as u32);
            i = i + 1;
            assert(self.scratch_rectified@ =~= rectified(filtered@).subrange(0, i as int));
            assert(self.scratch_squared@ =~= squared(raw@).subrange(0, i as int));
        }
        assert(self.scratch_rectified@ =~= rectified(filtered@));
        assert(self.scratch_squared@ =~= squared(raw@));
        self.fine_config.update_buffer(&self.scratch_rectified, &mut self.scratch_processing);
        proof {
            crate::multirate::lemma_chunk_count_le(n as int, st.fine_step as int);
        }
        self.coarse_config.update_buffer(&self.scratch_processing, &mut self.scratch_coarse_in);
        decimate(&self.scratch_squared, self.settings.fine_step, &mut self.scratch_raw);
        self.raw_buffer.push_all(&self.scratch_raw);
    }

    /// The noise gate: whether the mean power of the raw buffer is under the
    /// noise floor.
    fn raw_is_quiet(&self) -> (r: bool)
        requires
            self.wf(),
        ensures
            r == is_quiet(self.raw_view(), self.settings.config.noise_floor),
    {
        let raw_len = self.raw_buffer.len();
        proof {
            self.raw_buffer.lemma_len_bound();
        }
        let mut raw_sum: u64 = 0;
        let mut k: usize = 0;
        while k < raw_len
            invariant
                self.raw_buffer.wf(),
                raw_len == self.raw_view().len(),
                raw_len <= MAX_WINDOW,
                k <= raw_len,
                raw_sum == seg_sum(self.raw_view(), 0, k as int),
            decreases raw_len - k,
        {
            proof {
                crate::multirate::lemma_seg_sum_bound(self.raw_view(), 0, k as int);
                assert(k * 0xffff_ffff <= MAX_WINDOW * 0xffff_ffff) by (nonlinear_arith)
                    requires
                        k <= MAX_WINDOW,
                ;
            }
            raw_sum = raw_sum + self.raw_buffer.get(k) as u64;
            k = k + 1;
        }
        proof {
            crate::multirate::lemma_seg_sum_bound(self.raw_view(), 0, raw_len as int);
            assert(raw_sum * PPM <= MAX_WINDOW * 0xffff_ffff * PPM) by (nonlinear_arith)
                requires
                    raw_sum <= raw_len * 0xffff_ffff,
                    raw_len <= MAX_WINDOW,
            ;
            assert(self.settings.config.noise_floor * raw_len * SAMPLE_UNIT_SQ <= 0xffff_ffff
                * MAX_WINDOW * SAMPLE_UNIT_SQ) by (nonlinear_arith)
                requires
                    self.settings.config.noise_floor <= 0xffff_ffff,
                    raw_len <= MAX_WINDOW,
            ;
        }
        (raw_sum as u128) * (PPM as u128) < (self.settings.config.noise_floor as u128) * (
        raw_len as u128) * (SAMPLE_UNIT_SQ as u128)
    }

    /// Analyses one batch: `filtered` is the band-passed signal and `raw` the
    /// same samples unfiltered. Returns an estimate when the coarse buffer is
    /// full, the raw signal is not quiet, both searches succeed and the
    /// smoother accepts the estimate.
    pub fn process(&mut self, filtered: &[i16], raw: &[i16], now_ms: u64) -> (r: Option<
        AnalysisResult,
    >)
        requires
            old(self).wf(),
            old(self).time_ok(now_ms),
            filtered@.len() == raw@.len(),
            filtered@.len() <= 0x4000_0000,
        ensures
            final(self).wf(),
            final(self).settings() == old(self).settings(),
            ({
                let st = old(self).settings();
                let fine_in = chunk_means(rectified(filtered@), st.fine_step as int);
                let coarse_in = chunk_means(fine_in, COARSE_STEP as int);
                let raw_in = chunk_means(squared(raw@), st.fine_step as int);
                &&& final(self).fine_view() == keep_last(
                    old(self).fine_view() + fine_in,
                    st.fine_capacity as nat,
                )
                &&& final(self).coarse_view() == keep_last(
                    old(self).coarse_view() + coarse_in,
                    st.coarse_capacity as nat,
                )
                &&& final(self).raw_view() == keep_last(
                    old(self).raw_view() + raw_in,
                    st.fine_capacity as nat,
                )
            }),
            ({
                let st = old(self).settings();
                let full = final(self).coarse_view().len() == st.coarse_capacity;
                let quiet = is_quiet(final(self).raw_view(), st.config.noise_floor);
                let est = estimate(st, final(self).coarse_view(), final(self).fine_view());
                let h = old(self).history_view();
                let lock = old(self).lock_view();
                let sc = smoother_config(st.config);
                if !full || quiet || est is None {
                    &&& r is None
                    &&& final(self).history_view() == h
                    &&& final(self).lock_view() == lock
                } else {
                    let e = est.unwrap();
                    &&& r is Some == step_accepts(h, lock, sc, e.bpm, e.energy, e.is_drop, now_ms)
                    &&& final(self).history_view() == step_history(
                        h,
                        lock,
                        sc,
                        e.bpm,
                        e.energy,
                        e.is_drop,
                        now_ms,
                    )
                    &&& final(self).lock_view() == step_lock(
                        h,
                        lock,
                        sc,
                        e.bpm,
                        e.energy,
                        e.is_drop,
                        now_ms,
                    )
                    &&& r is Some ==> r.unwrap() == AnalysisResult {
                        bpm: median_of(bpms_of(final(self).history_view())),
                        average_energy: mean_energy(final(self).history_view()) as u64,
                        ..e
                    }
                }
            }),
    {
        self.push_samples(filtered, raw);
        if !self.coarse_config.buffer.is_full() {
            return None;
        }
        if self.raw_is_quiet() {
            return None;
        }
        let (best_lag_c, coarse_confidence) = match self.coarse_lag() {
            Some(c) => c,
            None => {
                return None;
            },
        };
        let est = match self.fine_estimate(best_lag_c, coarse_confidence) {
            Some(e) => e,
            None => {
                return None;
            },
        };
        let smoothed = match self.smoother.accept(est.bpm, est.energy, est.is_drop, now_ms) {
            Some(t) => t,
            None => {
                return None;
            },
        };
        Some(AnalysisResult { bpm: smoothed.bpm, average_energy: smoothed.average_energy, ..est })
    }
}

/// The three buffers of an analyser never exceed their capacities.
pub proof fn lemma_buffers_within_capacity(a: &BpmAnalyzer)
    requires
        a.wf(),
    ensures
        a.fine_view().len() <= a.settings().fine_capacity,
        a.coarse_view().len() <= a.settings().coarse_capacity,
        a.raw_view().len() <= a.settings().fine_capacity,
{
    a.fine_config.buffer.lemma_len_bound();
    a.coarse_config.buffer.lemma_len_bound();
    a.raw_buffer.lemma_len_bound();
}

/// An analyser's history holds at most `history_len` estimates, in strictly
/// increasing time order, and its reference is positive exactly when locked.
pub proof fn lemma_history_bounded(a: &BpmAnalyzer)
    requires
        a.wf(),
    ensures
        a.history_view().len() <= a.settings().config.history_len,
        crate::smoother::strictly_ordered(a.history_view()),
        (a.lock_view() is Locked) == (crate::smoother::reference_of(a.lock_view()) > 0),
{
    a.smoother.lemma_history_invariant();
}

proof fn lemma_lag_bound(num: int, den: int, bpm: int)
    requires
        0 <= num <= 0xffff_ffff,
        1 <= den,
        1 <= bpm,
    ensures
        0 <= lag_for(num, den, bpm) <= num * 60,
{
    assert(den * bpm >= 1) by (nonlinear_arith)
        requires
            1 <= den,
            1 <= bpm,
    ;
    vstd::arithmetic::div_mod::lemma_div_is_ordered_by_denominator(num * 60, 1, den * bpm);
    vstd::arithmetic::div_mod::lemma_div_pos_is_pos(num * 60, den * bpm);
    assert((num * 60) / 1 == num * 60);
}

} // verus!
