//! The reference lock, the adaptive energy gate and the smoothing history.

use crate::correlation::PPM;
use crate::ring::{keep_last, RingBuffer};
use vstd::prelude::*;

verus! {

/// The largest tempo, in tenths of a beat per minute, the smoother handles.
pub const MAX_TENTHS: u64 = 8796093022208;

/// One accepted estimate.
#[derive(Clone, Copy, Debug, PartialEq, Eq, Structural)]
pub struct BpmHistoryEntry {
    /// Tempo in tenths of a beat per minute.
    pub bpm: u64,
    /// Energy per sample of the fine window, in parts per million.
    pub energy: u64,
    /// When it was accepted, in milliseconds of a monotonic clock.
    pub timestamp: u64,
}

/// Whether a reference tempo anchors the accepted range.
#[derive(Clone, Copy, Debug, PartialEq, Eq, Structural)]
pub enum LockState {
    Unlocked,
    /// Locked on a reference tempo in tenths of a beat per minute.
    Locked(u64),
}

/// The tunable thresholds of the smoother.
#[derive(Clone, Copy, Debug, PartialEq, Eq, Structural)]
pub struct SmootherConfig {
    /// How many accepted estimates are kept.
    pub history_len: usize,
    /// Idle time after which history and reference are cleared, in milliseconds.
    pub silence_ms: u64,
    /// A batch is gated when its energy is under this share of the history's
    /// mean energy (parts per million) ...
    pub gate_ratio: u32,
    /// ... and under this absolute energy (parts per million).
    pub gate_floor: u64,
}

impl SmootherConfig {
    pub open spec fn valid(&self) -> bool {
        1 <= self.history_len
    }
}

/// The reference tempo of a lock state: 0 when unlocked.
pub open spec fn reference_of(l: LockState) -> u64 {
    match l {
        LockState::Unlocked => 0,
        LockState::Locked(r) => r,
    }
}

pub open spec fn abs_diff(a: int, b: int) -> int {
    if a >= b {
        a - b
    } else {
        b - a
    }
}

/// Whether `bpm` is within 10% of the reference `r` or of one of its
/// harmonics `2r`, `r / 2` and `3r`.
pub open spec fn coherent(bpm: int, r: int) -> bool {
    ||| 10 * abs_diff(bpm, r) <= r
    ||| 10 * abs_diff(bpm, 2 * r) <= 2 * r
    ||| 10 * abs_diff(2 * bpm, r) <= r
    ||| 10 * abs_diff(bpm, 3 * r) <= 3 * r
}

/// The sum of the energies of the first `n` entries.
pub open spec fn energy_sum(h: Seq<BpmHistoryEntry>, n: int) -> int
    decreases n,
{
    if n <= 0 {
        0
    } else {
        energy_sum(h, n - 1) + h[n - 1].energy
    }
}

/// The mean energy of a history, rounded down; 0 for an empty one.
pub open spec fn mean_energy(h: Seq<BpmHistoryEntry>) -> int {
    if h.len() > 0 {
        energy_sum(h, h.len() as int) / (h.len() as int)
    } else {
        0
    }
}

/// Whether the adaptive gate rejects a batch of energy `e` against history `h`:
/// the history is not empty, `e` is under `gate_ratio` of its mean energy, and
/// under `gate_floor`.
pub open spec fn gated(h: Seq<BpmHistoryEntry>, e: int, cfg: SmootherConfig) -> bool {
    &&& h.len() > 0
    &&& e * h.len() * PPM < cfg.gate_ratio * energy_sum(h, h.len() as int)
    &&& e < cfg.gate_floor
}

/// `t` with `x` inserted before its first element not less than `x`.
pub open spec fn insert_sorted(t: Seq<u64>, x: u64) -> Seq<u64>
    decreases t.len(),
{
    if t.len() == 0 {
        seq![x]
    } else if x <= t[0] {
        seq![x] + t
    } else {
        seq![t[0]] + insert_sorted(t.drop_first(), x)
    }
}

/// `s` in ascending order, by insertion.
pub open spec fn sort_seq(s: Seq<u64>) -> Seq<u64>
    decreases s.len(),
{
    if s.len() == 0 {
        s
    } else {
        insert_sorted(sort_seq(s.drop_last()), s.last())
    }
}

/// The upper median: the element at position `len / 2` of `s` sorted.
pub open spec fn median_of(s: Seq<u64>) -> u64 {
    sort_seq(s)[(s.len() / 2) as int]
}

/// The tempos of a history, oldest first.
pub open spec fn bpms_of(h: Seq<BpmHistoryEntry>) -> Seq<u64> {
    h.map_values(|e: BpmHistoryEntry| e.bpm)
}

/// Timestamps strictly increase along the history.
pub open spec fn strictly_ordered(h: Seq<BpmHistoryEntry>) -> bool {
    forall|i: int, j: int| 0 <= i < j < h.len() ==> h[i].timestamp < h[j].timestamp
}

/// Whether more than `silence_ms` have passed since the last accepted estimate.
pub open spec fn silence_reset(h: Seq<BpmHistoryEntry>, cfg: SmootherConfig, now: u64) -> bool {
    h.len() > 0 && now - h.last().timestamp > cfg.silence_ms
}

/// The history once a silence reset has been applied.
pub open spec fn history_after_reset(h: Seq<BpmHistoryEntry>, cfg: SmootherConfig, now: u64) -> Seq<
    BpmHistoryEntry,
> {
    if silence_reset(h, cfg, now) {
        Seq::empty()
    } else {
        h
    }
}

/// The lock once a silence reset has been applied.
pub open spec fn lock_after_reset(
    h: Seq<BpmHistoryEntry>,
    lock: LockState,
    cfg: SmootherConfig,
    now: u64,
) -> LockState {
    if silence_reset(h, cfg, now) {
        LockState::Unlocked
    } else {
        lock
    }
}

/// Acceptance by the adaptive gate and then by the reference lock, which
/// admits any drop and otherwise only a tempo coherent with its reference.
pub open spec fn step_accepts(
    h: Seq<BpmHistoryEntry>,
    lock: LockState,
    cfg: SmootherConfig,
    bpm: u64,
    energy: u64,
    is_drop: bool,
    now: u64,
) -> bool {
    let h0 = history_after_reset(h, cfg, now);
    let lock0 = lock_after_reset(h, lock, cfg, now);
    &&& !gated(h0, energy as int, cfg)
    &&& (is_drop || (lock0 is Locked && coherent(bpm as int, reference_of(lock0) as int)))
}

/// The history after one estimate: the estimate is appended, and the oldest
/// entry dropped beyond `history_len`, when accepted.
pub open spec fn step_history(
    h: Seq<BpmHistoryEntry>,
    lock: LockState,
    cfg: SmootherConfig,
    bpm: u64,
    energy: u64,
    is_drop: bool,
    now: u64,
) -> Seq<BpmHistoryEntry> {
    let h0 = history_after_reset(h, cfg, now);
    if step_accepts(h, lock, cfg, bpm, energy, is_drop, now) {
        keep_last(h0.push(BpmHistoryEntry { bpm, energy, timestamp: now }), cfg.history_len as nat)
    } else {
        h0
    }
}

/// The lock after one estimate: an accepted drop locks on its tempo.
pub open spec fn step_lock(
    h: Seq<BpmHistoryEntry>,
    lock: LockState,
    cfg: SmootherConfig,
    bpm: u64,
    energy: u64,
    is_drop: bool,
    now: u64,
) -> LockState {
    if step_accepts(h, lock, cfg, bpm, energy, is_drop, now) && is_drop {
        LockState::Locked(bpm)
    } else {
        lock_after_reset(h, lock, cfg, now)
    }
}

/// The reference tempo is 0 until a drop is accepted; an accepted drop sets it
/// to that drop's tempo; once positive it stays positive until a silence reset
/// clears it.
pub proof fn lemma_reference_lifecycle(
    h: Seq<BpmHistoryEntry>,
    lock: LockState,
    cfg: SmootherConfig,
    bpm: u64,
    energy: u64,
    is_drop: bool,
    now: u64,
)
    requires
        bpm > 0,
        lock is Locked ==> reference_of(lock) > 0,
    ensures
        ({
            let next = reference_of(step_lock(h, lock, cfg, bpm, energy, is_drop, now));
            let locks = is_drop && step_accepts(h, lock, cfg, bpm, energy, is_drop, now);
            &&& locks ==> next == bpm
            &&& !locks && reference_of(lock) == 0 ==> next == 0
            &&& !locks && silence_reset(h, cfg, now) ==> next == 0
            &&& reference_of(lock) > 0 && !silence_reset(h, cfg, now) ==> next > 0
        }),
{
}

proof fn lemma_insert_sorted(t: Seq<u64>, x: u64, p: int)
    requires
        0 <= p <= t.len(),
        forall|k: int| 0 <= k < p ==> t[k] < x,
        p < t.len() ==> x <= t[p],
    ensures
        insert_sorted(t, x) == t.insert(p, x),
    decreases t.len(),
{
    if t.len() == 0 {
        assert(insert_sorted(t, x) =~= t.insert(p, x));
    } else if x <= t[0] {
        assert(p == 0);
        assert(insert_sorted(t, x) =~= t.insert(p, x));
    } else {
        let u = t.drop_first();
        assert forall|k: int| 0 <= k < p - 1 implies u[k] < x by {
            assert(u[k] == t[k + 1]);
        }
        lemma_insert_sorted(u, x, p - 1);
        assert(insert_sorted(t, x) =~= t.insert(p, x));
    }
}

/// `t` is in ascending order.
pub open spec fn sorted_asc(t: Seq<u64>) -> bool {
    forall|i: int, j: int| 0 <= i <= j < t.len() ==> t[i] <= t[j]
}

proof fn lemma_insert_sorted_perm(t: Seq<u64>, x: u64)
    requires
        sorted_asc(t),
    ensures
        sorted_asc(insert_sorted(t, x)),
        insert_sorted(t, x).to_multiset() =~= t.to_multiset().insert(x),
    decreases t.len(),
{
    broadcast use vstd::multiset::group_multiset_axioms;

    let r = insert_sorted(t, x);
    Seq::<u64>::empty().to_multiset_ensures();
    assert(seq![x] =~= Seq::<u64>::empty().push(x));
    vstd::seq_lib::lemma_multiset_commutative(seq![x], t);
    if t.len() == 0 {
        assert(r =~= seq![x] + t);
    } else if x <= t[0] {
        assert(sorted_asc(r)) by {
            assert forall|i: int, j: int| 0 <= i <= j < r.len() implies r[i] <= r[j] by {
                if i > 0 {
                    assert(r[i] == t[i - 1] && r[j] == t[j - 1]);
                } else if j > 0 {
                    assert(r[j] == t[j - 1]);
                    assert(t[0] <= t[j - 1]);
                }
            }
        }
    } else {
        let u = t.drop_first();
        let t0 = seq![t[0]];
        assert(sorted_asc(u)) by {
            assert forall|i: int, j: int| 0 <= i <= j < u.len() implies u[i] <= u[j] by {
                assert(u[i] == t[i + 1] && u[j] == t[j + 1]);
            }
        }
        lemma_insert_sorted_perm(u, x);
        let ru = insert_sorted(u, x);
        assert(r =~= t0 + ru);
        assert(t =~= t0 + u);
        assert(t0 =~= Seq::<u64>::empty().push(t[0]));
        vstd::seq_lib::lemma_multiset_commutative(t0, ru);
        vstd::seq_lib::lemma_multiset_commutative(t0, u);
        ru.to_multiset_ensures();
        u.to_multiset_ensures();
        assert forall|k: int| 0 <= k < ru.len() implies t[0] <= ru[k] by {
            let e = ru[k];
            assert(ru.contains(e));
            assert(ru.to_multiset().count(e) > 0);
            if e != x {
                assert(u.to_multiset().count(e) > 0);
                assert(u.contains(e));
                let m = choose|m: int| 0 <= m < u.len() && u[m] == e;
                assert(u[m] == t[m + 1]);
            }
        }
        assert(sorted_asc(r)) by {
            assert forall|i: int, j: int| 0 <= i <= j < r.len() implies r[i] <= r[j] by {
                if i > 0 {
                    assert(r[i] == ru[i - 1] && r[j] == ru[j - 1]);
                } else if j > 0 {
                    assert(r[j] == ru[j - 1]);
                }
            }
        }
        assert(r.to_multiset() =~= t.to_multiset().insert(x));
    }
}

/// `sort_seq` puts its input in ascending order and keeps every element with
/// its multiplicity.
pub proof fn lemma_sort_seq(s: Seq<u64>)
    ensures
        sorted_asc(sort_seq(s)),
        sort_seq(s).to_multiset() =~= s.to_multiset(),
    decreases s.len(),
{
    if s.len() > 0 {
        let p = s.drop_last();
        lemma_sort_seq(p);
        lemma_insert_sorted_perm(sort_seq(p), s.last());
        p.to_multiset_ensures();
        assert(s =~= p.push(s.last()));
    }
}

proof fn lemma_sort_len(s: Seq<u64>)
    ensures
        sort_seq(s).len() == s.len(),
    decreases s.len(),
{
    if s.len() > 0 {
        lemma_sort_len(s.drop_last());
        lemma_insert_sorted_len(sort_seq(s.drop_last()), s.last());
    }
}

proof fn lemma_insert_sorted_len(t: Seq<u64>, x: u64)
    ensures
        insert_sorted(t, x).len() == t.len() + 1,
    decreases t.len(),
{
    if t.len() > 0 && x > t[0] {
        lemma_insert_sorted_len(t.drop_first(), x);
    }
}

proof fn lemma_energy_sum_bound(h: Seq<BpmHistoryEntry>, n: int)
    requires
        0 <= n <= h.len(),
        forall|i: int| 0 <= i < h.len() ==> #[trigger] h[i].energy <= PPM,
    ensures
        0 <= energy_sum(h, n) <= n * PPM,
    decreases n,
{
    if n > 0 {
        lemma_energy_sum_bound(h, n - 1);
    }
}

/// Returns the upper median of `values`.
pub fn median(values: &Vec<u64>) -> (r: u64)
    requires
        values@.len() > 0,
    ensures
        r == median_of(values@),
{
    let ghost s = values@;
    let mut sorted: Vec<u64> = Vec::with_capacity(values.len());
    let mut i: usize = 0;
    while i < values.len()
        invariant
            s == values@,
            i <= s.len(),
            sorted@ == sort_seq(s.subrange(0, i as int)),
            sorted@.len() == i,
        decreases s.len() - i,
    {
        let x = values[i];
        let mut p: usize = 0;
        while p < sorted.len() && sorted[p] < x
            invariant
                p <= sorted@.len(),
                forall|k: int| 0 <= k < p ==> sorted@[k] < x,
            decreases sorted@.len() - p,
        {
            p = p + 1;
        }
        proof {
            lemma_insert_sorted(sorted@, x, p as int);
            assert(s.subrange(0, i + 1).drop_last() =~= s.subrange(0, i as int));
            assert(s.subrange(0, i + 1).last() == x);
        }
        sorted.insert(p, x);
        i = i + 1;
    }
    proof {
        assert(s.subrange(0, s.len() as int) =~= s);
        lemma_sort_len(s);
    }
    sorted[values.len() / 2]
}

/// What the smoother hands back for an accepted estimate.
#[derive(Clone, Copy, Debug, PartialEq, Eq, Structural)]
pub struct SmoothedTempo {
    /// Median tempo of the history, in tenths of a beat per minute.
    pub bpm: u64,
    /// Mean energy of the history, in parts per million.
    pub average_energy: u64,
}

/// The history of accepted estimates and the reference lock.
pub struct TempoSmoother {
    config: SmootherConfig,
    history: RingBuffer<BpmHistoryEntry>,
    lock: LockState,
}

impl TempoSmoother {
    pub closed spec fn history_view(&self) -> Seq<BpmHistoryEntry> {
        self.history.view()
    }

    pub closed spec fn lock_view(&self) -> LockState {
        self.lock
    }

    pub closed spec fn cfg(&self) -> SmootherConfig {
        self.config
    }

    /// The smoother's invariant: the history is bounded and ordered in time,
    /// its energies are at most 1, and a lock implies a positive reference and
    /// a non-empty history.
    pub closed spec fn wf(&self) -> bool {
        &&& self.config.valid()
        &&& self.history.wf()
        &&& self.history.cap() == self.config.history_len
        &&& strictly_ordered(self.history.view())
        &&& forall|i: int|
            0 <= i < self.history.view().len() ==> #[trigger] self.history.view()[i].energy <= PPM
        &&& forall|i: int|
            0 <= i < self.history.view().len() ==> #[trigger] self.history.view()[i].bpm
                <= MAX_TENTHS
        &&& match self.lock {
            LockState::Unlocked => true,
            LockState::Locked(r) => 0 < r <= MAX_TENTHS && self.history.view().len() > 0,
        }
    }

    /// A smoother keeps at most `history_len` estimates, in strictly
    /// increasing time order, and is locked exactly when its reference tempo
    /// is positive.
    pub proof fn lemma_history_invariant(&self)
        requires
            self.wf(),
        ensures
            self.history_view().len() <= self.cfg().history_len,
            strictly_ordered(self.history_view()),
            (self.lock_view() is Locked) == (reference_of(self.lock_view()) > 0),
    {
        self.history.lemma_len_bound();
    }

    /// Whether `now` is later than every accepted estimate.
    pub open spec fn time_ok(&self, now: u64) -> bool {
        self.history_view().len() > 0 ==> self.history_view().last().timestamp < now
    }

    pub fn new(config: SmootherConfig) -> (r: Self)
        requires
            config.valid(),
        ensures
            r.wf(),
            r.cfg() == config,
            r.history_view() == Seq::<BpmHistoryEntry>::empty(),
            r.lock_view() == LockState::Unlocked,
    {
        TempoSmoother { config, history: RingBuffer::new(config.history_len), lock: LockState::Unlocked }
    }

    /// The reference tempo in tenths of a beat per minute, 0 when unlocked.
    pub fn reference(&self) -> (r: u64)
        ensures
            r == reference_of(self.lock_view()),
    {
        match self.lock {
            LockState::Unlocked => 0,
            LockState::Locked(r) => r,
        }
    }

    pub fn history_len(&self) -> (r: usize)
        requires
            self.wf(),
        ensures
            r == self.history_view().len(),
    {
        self.history.len()
    }

    /// Tests `time_ok`.
    pub fn accepts_time(&self, now: u64) -> (r: bool)
        requires
            self.wf(),
        ensures
            r == self.time_ok(now),
    {
        let n = self.history.len();
        n == 0 || self.history.get(n - 1).timestamp < now
    }

    fn energy_total(&self) -> (r: u128)
        requires
            self.wf(),
        ensures
            r == energy_sum(self.history_view(), self.history_view().len() as int),
            r <= self.history_view().len() * PPM,
    {
        let ghost h = self.history_view();
        let n = self.history.len();
        let mut total: u128 = 0;
        let mut i: usize = 0;
        while i < n
            invariant
                self.wf(),
                h == self.history_view(),
                n == h.len(),
                i <= n,
                total == energy_sum(h, i as int),
            decreases n - i,
        {
            proof {
                lemma_energy_sum_bound(h, i + 1);
                assert((i + 1) * PPM <= 0x1_0000_0000_0000_0000 * PPM) by (nonlinear_arith)
                    requires
                        i + 1 <= 0x1_0000_0000_0000_0000,
                ;
            }
            total = total + self.history.get(i).energy as u128;
            i = i + 1;
        }
        proof {
            lemma_energy_sum_bound(h, n as int);
        }
        total
    }

    /// The adaptive gate: `None` when it rejects a batch of energy
    /// `current_energy`, else the mean energy of the history.
    pub fn check_energy_threshold(&self, current_energy: u64) -> (r: Option<u64>)
        requires
            self.wf(),
            current_energy <= PPM,
        ensures
            r.is_none() == gated(self.history_view(), current_energy as int, self.cfg()),
            r.is_some() ==> r.unwrap() == mean_energy(self.history_view()),
    {
        let n = self.history.len();
        if n == 0 {
            return Some(0);
        }
        let total = self.energy_total();
        proof {
            assert(current_energy * n * PPM <= PPM * 0x1_0000_0000_0000_0000 * PPM) by (nonlinear_arith)
                requires
                    current_energy <= PPM,
                    n <= 0x1_0000_0000_0000_0000,
            ;
            assert(n * PPM <= 0x1_0000_0000_0000_0000 * PPM) by (nonlinear_arith)
                requires
                    n <= 0x1_0000_0000_0000_0000,
            ;
            assert(self.config.gate_ratio * total <= 0xffff_ffff * (0x1_0000_0000_0000_0000 * PPM))
                by (nonlinear_arith)
                requires
                    self.config.gate_ratio <= 0xffff_ffff,
                    total <= 0x1_0000_0000_0000_0000 * PPM,
            ;
        }
        if (current_energy as u128) * (n as u128) * (PPM as u128) < (self.config.gate_ratio as u128)
            * total && current_energy < self.config.gate_floor {
            return None;
        }
        Some(mean_of_total(total, n))
    }

    /// The reference lock: a drop sets the reference to `bpm` and is accepted;
    /// otherwise a tempo is accepted only when coherent with the reference.
    fn update_and_check_reference(&mut self, bpm: u64, is_drop: bool) -> (r: bool)
        requires
            0 < bpm <= MAX_TENTHS,
            reference_of(old(self).lock_view()) <= MAX_TENTHS,
        ensures
            r == (is_drop || (old(self).lock_view() is Locked && coherent(
                bpm as int,
                reference_of(old(self).lock_view()) as int,
            ))),
            final(self).lock_view() == if is_drop {
                LockState::Locked(bpm)
            } else {
                old(self).lock_view()
            },
            final(self).history == old(self).history,
            final(self).config == old(self).config,
    {
        if is_drop {
            self.lock = LockState::Locked(bpm);
            true
        } else {
            match self.lock {
                LockState::Unlocked => false,
                LockState::Locked(reference) => {
                    let b = bpm as i128;
                    let r = reference as i128;
                    let close = 10 * abs_i128(b - r) <= r;
                    let double = 10 * abs_i128(b - 2 * r) <= 2 * r;
                    let half = 10 * abs_i128(2 * b - r) <= r;
                    let triple = 10 * abs_i128(b - 3 * r) <= 3 * r;
                    close || double || half || triple
                },
            }
        }
    }

    /// Runs one accepted fine-window estimate through the smoother: clears
    /// history and reference after `silence_ms` without an accepted estimate,
    /// applies the adaptive gate and the reference lock, and on acceptance
    /// records the estimate and returns the median tempo and mean energy of
    /// the history.
    pub fn accept(&mut self, bpm: u64, energy: u64, is_drop: bool, now: u64) -> (r: Option<
        SmoothedTempo,
    >)
        requires
            old(self).wf(),
            old(self).time_ok(now),
            0 < bpm <= MAX_TENTHS,
            energy <= PPM,
        ensures
            final(self).wf(),
            final(self).cfg() == old(self).cfg(),
            r.is_some() == step_accepts(
                old(self).history_view(),
                old(self).lock_view(),
                old(self).cfg(),
                bpm,
                energy,
                is_drop,
                now,
            ),
            final(self).history_view() == step_history(
                old(self).history_view(),
                old(self).lock_view(),
                old(self).cfg(),
                bpm,
                energy,
                is_drop,
                now,
            ),
            final(self).lock_view() == step_lock(
                old(self).history_view(),
                old(self).lock_view(),
                old(self).cfg(),
                bpm,
                energy,
                is_drop,
                now,
            ),
            r.is_some() ==> r.unwrap().bpm == median_of(bpms_of(final(self).history_view())),
            r.is_some() ==> r.unwrap().average_energy == mean_energy(final(self).history_view()),
    {
        let n = self.history.len();
        if n > 0 {
            let last = self.history.get(n - 1);
            if now - last.timestamp > self.config.silence_ms {
                self.history.clear();
                self.lock = LockState::Unlocked;
            }
        }
        let gate = self.check_energy_threshold(energy);
        if gate.is_none() {
            return None;
        }
        let accepted = self.update_and_check_reference(bpm, is_drop);
        if !accepted {
            return None;
        }
        let entry = BpmHistoryEntry { bpm, energy, timestamp: now };
        let ghost h0 = self.history.view();
        self.history.push(entry);
        proof {
            let h1 = self.history.view();
            let ext = h0.push(entry);
            crate::ring::lemma_keep_last_len(ext, self.config.history_len as nat);
            if ext.len() > self.config.history_len {
                assert(h1 =~= ext.subrange(ext.len() - self.config.history_len, ext.len() as int));
                assert forall|i: int| 0 <= i < h1.len() implies #[trigger] h1[i] == ext[i + ext.len()
                    - h1.len()] by {}
            } else {
                assert(h1 == ext);
            }
            assert forall|i: int, j: int| 0 <= i < j < h1.len() implies h1[i].timestamp
                < h1[j].timestamp by {
                let off = ext.len() - h1.len();
                assert(h1[i] == ext[i + off]);
                assert(h1[j] == ext[j + off]);
            }
            assert forall|i: int| 0 <= i < h1.len() implies #[trigger] h1[i].energy <= PPM
                && h1[i].bpm <= MAX_TENTHS by {
                let off = ext.len() - h1.len();
                assert(h1[i] == ext[i + off]);
            }
        }
        let count = self.history.len();
        let mut bpms: Vec<u64> = Vec::with_capacity(count);
        let mut i: usize = 0;
        while i < count
            invariant
                self.wf(),
                count == self.history_view().len(),
                i <= count,
                bpms@ == bpms_of(self.history_view()).subrange(0, i as int),
            decreases count - i,
        {
            bpms.push(self.history.get(i).bpm);
            i = i + 1;
            assert(bpms@ =~= bpms_of(self.history_view()).subrange(0, i as int));
        }
        assert(bpms@ =~= bpms_of(self.history_view()));
        let smoothed_bpm = median(&bpms);
        let total = self.energy_total();
        Some(SmoothedTempo { bpm: smoothed_bpm, average_energy: mean_of_total(total, count) })
    }
}

/// `total / n`, which fits when `total` is at most `n` energies of at most 1.
fn mean_of_total(total: u128, n: usize) -> (r: u64)
    requires
        n > 0,
        total <= n * PPM,
    ensures
        r == total as int / n as int,
{
    proof {
        vstd::arithmetic::div_mod::lemma_div_is_ordered(total as int, n * PPM, n as int);
        vstd::arithmetic::div_mod::lemma_div_multiples_vanish(PPM as int, n as int);
        vstd::arithmetic::div_mod::lemma_div_pos_is_pos(total as int, n as int);
    }
    (total / (n as u128)) as u64
}

fn abs_i128(x: i128) -> (r: i128)
    requires
        x > i128::MIN,
    ensures
        r == abs_diff(x as int, 0),
{
    if x >= 0 {
        x
    } else {
        -x
    }
}

} // verus!
