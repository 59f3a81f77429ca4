//! Lamp ON/OFF pairing state machine for the NDIR sensor.
//!
//! Each ON half-cycle stores a sample; the following OFF half-cycle pairs
//! with it.  The first pairs build the ambient baseline; once enough of them
//! have been seen the baseline is locked and later pairs are measurements.

use vstd::prelude::*;
use crate::filter::REF_DIFF_MIN;

verus! {

/// One half-cycle of ADC reads.
#[derive(Clone, Copy, Default, Debug, PartialEq, Eq)]
pub struct HalfSample {
    pub act: u16,
    pub reference: u16,
    pub temp: u16,
}

/// What a valid pair contributes to the ambient baseline.
#[derive(Clone, Copy, Debug, PartialEq, Eq)]
pub enum BaselineStep {
    /// The pair's ratio joins the baseline mean, which now spans `count` pairs.
    Accumulate { count: u32 },
    /// The baseline is locked; the pair is a measurement against it.
    Measure,
}

/// The integer values produced after one complete ON/OFF lamp pair.
#[derive(Clone, Copy, Debug, PartialEq, Eq)]
pub struct ProcessedSample {
    /// |ACT_on - ACT_off|
    pub act_diff: u16,
    /// |REF_on - REF_off|, at least `REF_DIFF_MIN`
    pub ref_diff: u16,
    /// Mean TEMP ADC count across the ON and OFF half-cycles (rounded down)
    pub temp_avg_raw: u16,
    /// true once baseline accumulation is complete (with this pair included)
    pub baseline_ready: bool,
    /// How the pair's ratio is to be used
    pub step: BaselineStep,
}

/// The outcome of one half-cycle tick.
#[derive(Clone, Copy, Debug, PartialEq, Eq)]
pub enum HalfCycle {
    /// The lamp was on: the sample was stored and the lamp is now off.
    OnCaptured,
    /// The lamp was off: the pair was processed and the lamp is now on.
    OffProcessed(Option<ProcessedSample>),
}

/// The abstract state of the machine.
pub struct NdirView {
    pub lamp_on: bool,
    pub on_sample: Option<HalfSample>,
    pub baseline_count: u32,
    pub baseline_target: u32,
    pub baseline_ready: bool,
}

pub struct NdirState {
    lamp_on: bool,
    on_sample: Option<HalfSample>,
    baseline_count: u32,
    baseline_target: u32,
    baseline_ready: bool,
}

pub open spec fn abs_diff(a: u16, b: u16) -> u16 {
    if a >= b {
        (a - b) as u16
    } else {
        (b - a) as u16
    }
}

/// Mean of two counts, rounded down.
pub open spec fn mean2(a: u16, b: u16) -> u16 {
    ((a + b) / 2) as u16
}

/// The state right after construction.
pub open spec fn initial_view(baseline_target: u32) -> NdirView {
    NdirView {
        lamp_on: false,
        on_sample: None,
        baseline_count: 0,
        baseline_target,
        baseline_ready: false,
    }
}

/// The state after an ON sample is stored.
pub open spec fn capture_on_view(m: NdirView, on: HalfSample) -> NdirView {
    NdirView { on_sample: Some(on), ..m }
}

/// The state and result after an OFF sample is processed.
pub open spec fn process_view(m: NdirView, act_off: u16, ref_off: u16, temp_off: u16) -> (
    NdirView,
    Option<ProcessedSample>,
) {
    match m.on_sample {
        None => (m, None),
        Some(on) => {
            let cleared = NdirView { on_sample: None, ..m };
            let act_diff = abs_diff(on.act, act_off);
            let ref_diff = abs_diff(on.reference, ref_off);
            let temp_avg_raw = mean2(on.temp, temp_off);
            if ref_diff < REF_DIFF_MIN {
                (cleared, None)
            } else if !m.baseline_ready {
                let count = (m.baseline_count + 1) as u32;
                let ready = count >= m.baseline_target;
                (
                    NdirView { baseline_count: count, baseline_ready: ready, ..cleared },
                    Some(
                        ProcessedSample {
                            act_diff,
                            ref_diff,
                            temp_avg_raw,
                            baseline_ready: ready,
                            step: BaselineStep::Accumulate { count },
                        },
                    ),
                )
            } else {
                (
                    cleared,
                    Some(
                        ProcessedSample {
                            act_diff,
                            ref_diff,
                            temp_avg_raw,
                            baseline_ready: true,
                            step: BaselineStep::Measure,
                        },
                    ),
                )
            }
        },
    }
}

/// The state and outcome after one half-cycle tick.
pub open spec fn half_cycle_view(m: NdirView, s: HalfSample) -> (NdirView, HalfCycle) {
    if m.lamp_on {
        (NdirView { lamp_on: false, ..capture_on_view(m, s) }, HalfCycle::OnCaptured)
    } else {
        let (m2, r) = process_view(m, s.act, s.reference, s.temp);
        (NdirView { lamp_on: true, ..m2 }, HalfCycle::OffProcessed(r))
    }
}

/// An ON sample followed by an OFF sample.
pub open spec fn pair_view(m: NdirView, pair: (HalfSample, HalfSample)) -> (
    NdirView,
    Option<ProcessedSample>,
) {
    process_view(capture_on_view(m, pair.0), pair.1.act, pair.1.reference, pair.1.temp)
}

/// A pair whose reference channel moved by at least `REF_DIFF_MIN`.
pub open spec fn valid_pair(pair: (HalfSample, HalfSample)) -> bool {
    abs_diff(pair.0.reference, pair.1.reference) >= REF_DIFF_MIN
}

/// The state after a run of ON/OFF pairs.
pub open spec fn feed_pairs(m: NdirView, pairs: Seq<(HalfSample, HalfSample)>) -> NdirView
    decreases pairs.len(),
{
    if pairs.len() == 0 {
        m
    } else {
        pair_view(feed_pairs(m, pairs.drop_last()), pairs.last()).0
    }
}

/// Pairs the baseline spans once locked: the target, and at least one.
pub open spec fn baseline_span(baseline_target: u32) -> int {
    if baseline_target == 0 {
        1
    } else {
        baseline_target as int
    }
}

/// Every transition keeps the baseline bookkeeping consistent.
pub proof fn lemma_transitions_keep_wf(m: NdirView, s: HalfSample)
    requires
        view_wf(m),
    ensures
        view_wf(capture_on_view(m, s)),
        view_wf(process_view(m, s.act, s.reference, s.temp).0),
        view_wf(half_cycle_view(m, s).0),
{
}

/// An OFF sample pairs with the ON sample captured just before it: the
/// pair is kept exactly when the reference channel moved by at least
/// `REF_DIFF_MIN`, and then carries the differences and the mean
/// temperature of the two samples.
pub proof fn lemma_off_pairs_with_on(m: NdirView, on: HalfSample, off: HalfSample)
    ensures
        ({
            let (m2, r) = pair_view(m, (on, off));
            &&& (r is Some <==> abs_diff(on.reference, off.reference) >= REF_DIFF_MIN)
            &&& (r matches Some(p) ==> {
                &&& p.act_diff == abs_diff(on.act, off.act)
                &&& p.ref_diff == abs_diff(on.reference, off.reference)
                &&& p.temp_avg_raw == mean2(on.temp, off.temp)
            })
            &&& m2.on_sample is None
        }),
{
}

/// Without a stored ON sample an OFF sample yields nothing and changes nothing.
pub proof fn lemma_off_needs_on(m: NdirView, off: HalfSample)
    requires
        m.on_sample is None,
    ensures
        process_view(m, off.act, off.reference, off.temp) == (m, None::<ProcessedSample>),
{
}

/// A dropped pair leaves the baseline as it was.
pub proof fn lemma_dropped_pair_keeps_baseline(m: NdirView, off: HalfSample)
    ensures
        ({
            let (m2, r) = process_view(m, off.act, off.reference, off.temp);
            r is None ==> {
                &&& m2.baseline_count == m.baseline_count
                &&& m2.baseline_ready == m.baseline_ready
                &&& m2.baseline_target == m.baseline_target
            }
        }),
{
}

/// Once locked, the baseline stays locked and unchanged, and every later
/// pair is a measurement.
pub proof fn lemma_locked_baseline_is_final(m: NdirView, s: HalfSample)
    requires
        m.baseline_ready,
    ensures
        ({
            let (m2, r) = process_view(m, s.act, s.reference, s.temp);
            &&& m2.baseline_ready
            &&& m2.baseline_count == m.baseline_count
            &&& (r matches Some(p) ==> p.baseline_ready && p.step == BaselineStep::Measure)
        }),
        ({
            let (m3, _) = half_cycle_view(m, s);
            m3.baseline_ready && m3.baseline_count == m.baseline_count
        }),
        capture_on_view(m, s).baseline_ready,
        capture_on_view(m, s).baseline_count == m.baseline_count,
{
}

/// The lamp alternates: an ON tick stores its sample and the next tick,
/// OFF, processes the pair of the two samples.
pub proof fn lemma_half_cycles_alternate(m: NdirView, on: HalfSample, off: HalfSample)
    requires
        m.lamp_on,
    ensures
        ({
            let (m1, t1) = half_cycle_view(m, on);
            let (m2, t2) = half_cycle_view(m1, off);
            &&& t1 == HalfCycle::OnCaptured
            &&& !m1.lamp_on
            &&& m2.lamp_on
            &&& t2 == HalfCycle::OffProcessed(pair_view(m, (on, off)).1)
            &&& m2 == (NdirView { lamp_on: true, ..pair_view(m, (on, off)).0 })
        }),
{
}

/// Baseline accumulation: from a fresh machine, valid pairs are counted
/// into the baseline until it spans `baseline_span(target)` pairs, and then
/// it locks.  The next valid pair reports its place in the baseline, or is
/// a measurement once the baseline is locked.
pub proof fn lemma_baseline_locks_after_target(
    baseline_target: u32,
    pairs: Seq<(HalfSample, HalfSample)>,
    next: (HalfSample, HalfSample),
)
    requires
        forall|i: int| 0 <= i < pairs.len() ==> valid_pair(#[trigger] pairs[i]),
        valid_pair(next),
    ensures
        ({
            let m = feed_pairs(initial_view(baseline_target), pairs);
            let span = baseline_span(baseline_target);
            &&& view_wf(m)
            &&& m.baseline_target == baseline_target
            &&& m.baseline_ready == (pairs.len() >= span)
            &&& m.baseline_count == (if pairs.len() < span { pairs.len() as int } else { span })
            &&& pair_view(m, next).1 matches Some(p) && p.step == (if pairs.len() < span {
                BaselineStep::Accumulate { count: (pairs.len() + 1) as u32 }
            } else {
                BaselineStep::Measure
            }) && p.baseline_ready == (pairs.len() + 1 >= span)
        }),
    decreases pairs.len(),
{
    if pairs.len() > 0 {
        let prev = pairs.drop_last();
        assert forall|i: int| 0 <= i < prev.len() implies valid_pair(#[trigger] prev[i]) by {
            assert(prev[i] == pairs[i]);
        }
        lemma_baseline_locks_after_target(baseline_target, prev, pairs.last());
    }
}

/// The pair arithmetic: the difference is the larger count minus the
/// smaller, and the mean is the floor of the half sum.
pub proof fn lemma_pair_arithmetic(a: u16, b: u16)
    ensures
        a >= b ==> abs_diff(a, b) == a - b,
        a < b ==> abs_diff(a, b) == b - a,
        abs_diff(a, b) == abs_diff(b, a),
        2 * mean2(a, b) <= a + b < 2 * mean2(a, b) + 2,
        mean2(a, b) == mean2(b, a),
{
}

/// A fresh machine has its lamp flag off, no pending ON sample and an empty
/// baseline; an OFF sample on it yields nothing and changes nothing.
pub proof fn lemma_fresh_machine_is_empty(baseline_target: u32, off: HalfSample)
    ensures
        !initial_view(baseline_target).lamp_on,
        initial_view(baseline_target).on_sample is None,
        initial_view(baseline_target).baseline_count == 0,
        initial_view(baseline_target).baseline_target == baseline_target,
        !initial_view(baseline_target).baseline_ready,
        process_view(initial_view(baseline_target), off.act, off.reference, off.temp) == (
            initial_view(baseline_target),
            None::<ProcessedSample>,
        ),
{
}

/// Storing an ON sample changes nothing but the pending sample, whatever the
/// lamp flag and the baseline.
pub proof fn lemma_capture_on_only_stores(m: NdirView, s: HalfSample)
    ensures
        capture_on_view(m, s).on_sample == Some(s),
        capture_on_view(m, s).lamp_on == m.lamp_on,
        capture_on_view(m, s).baseline_count == m.baseline_count,
        capture_on_view(m, s).baseline_target == m.baseline_target,
        capture_on_view(m, s).baseline_ready == m.baseline_ready,
{
}

/// A tick with the lamp flag on stores its sample and turns the lamp off; a
/// tick with the flag off processes the pending pair and turns it on.  The
/// flag flips on every tick.
pub proof fn lemma_half_cycle_by_lamp_flag(m: NdirView, s: HalfSample)
    ensures
        half_cycle_view(m, s).0.lamp_on == !m.lamp_on,
        m.lamp_on ==> half_cycle_view(m, s).1 == HalfCycle::OnCaptured,
        m.lamp_on ==> ({
            let m2 = half_cycle_view(m, s).0;
            &&& m2.on_sample == Some(s)
            &&& m2.baseline_count == m.baseline_count
            &&& m2.baseline_target == m.baseline_target
            &&& m2.baseline_ready == m.baseline_ready
        }),
        !m.lamp_on ==> half_cycle_view(m, s) == (
            NdirView { lamp_on: true, ..process_view(m, s.act, s.reference, s.temp).0 },
            HalfCycle::OffProcessed(process_view(m, s.act, s.reference, s.temp).1),
        ),
        !m.lamp_on && m.on_sample is None ==> half_cycle_view(m, s).1 == HalfCycle::OffProcessed(
            None,
        ),
{
}

/// Two ticks, the first with the lamp flag on.
pub open spec fn tick_pair_view(m: NdirView, pair: (HalfSample, HalfSample)) -> (
    NdirView,
    HalfCycle,
) {
    half_cycle_view(half_cycle_view(m, pair.0).0, pair.1)
}

/// The state after a run of tick pairs.
pub open spec fn feed_ticks(m: NdirView, pairs: Seq<(HalfSample, HalfSample)>) -> NdirView
    decreases pairs.len(),
{
    if pairs.len() == 0 {
        m
    } else {
        tick_pair_view(feed_ticks(m, pairs.drop_last()), pairs.last()).0
    }
}

/// Baseline accumulation as the firmware drives it: from a fresh machine
/// whose lamp flag is then set, each ON tick followed by an OFF tick with a
/// valid pair counts once into the baseline, which locks after
/// `baseline_span(target)` such pairs; the lamp flag is on again after each
/// pair of ticks.
pub proof fn lemma_baseline_locks_under_ticks(
    baseline_target: u32,
    pairs: Seq<(HalfSample, HalfSample)>,
    next: (HalfSample, HalfSample),
)
    requires
        forall|i: int| 0 <= i < pairs.len() ==> valid_pair(#[trigger] pairs[i]),
        valid_pair(next),
    ensures
        ({
            let m = feed_ticks(NdirView { lamp_on: true, ..initial_view(baseline_target) }, pairs);
            let span = baseline_span(baseline_target);
            &&& m.lamp_on
            &&& m.on_sample is None
            &&& m.baseline_target == baseline_target
            &&& m.baseline_ready == (pairs.len() >= span)
            &&& m.baseline_count == (if pairs.len() < span { pairs.len() as int } else { span })
            &&& tick_pair_view(m, next).1 matches HalfCycle::OffProcessed(Some(p)) && p.step == (
            if pairs.len() < span {
                BaselineStep::Accumulate { count: (pairs.len() + 1) as u32 }
            } else {
                BaselineStep::Measure
            }) && p.baseline_ready == (pairs.len() + 1 >= span)
        }),
    decreases pairs.len(),
{
    if pairs.len() > 0 {
        let prev = pairs.drop_last();
        assert forall|i: int| 0 <= i < prev.len() implies valid_pair(#[trigger] prev[i]) by {
            assert(prev[i] == pairs[i]);
        }
        lemma_baseline_locks_under_ticks(baseline_target, prev, pairs.last());
    }
}

impl View for NdirState {
    type V = NdirView;

    closed spec fn view(&self) -> NdirView {
        NdirView {
            lamp_on: self.lamp_on,
            on_sample: self.on_sample,
            baseline_count: self.baseline_count,
            baseline_target: self.baseline_target,
            baseline_ready: self.baseline_ready,
        }
    }
}

/// The baseline bookkeeping is consistent: while accumulating, the count
/// is below the target (or nothing is counted yet); once locked, the
/// baseline spans at least one pair and at least the target.
pub open spec fn view_wf(m: NdirView) -> bool {
    &&& !m.baseline_ready ==> (m.baseline_count == 0 || m.baseline_count < m.baseline_target)
    &&& m.baseline_ready ==> (m.baseline_count >= 1 && m.baseline_count >= m.baseline_target)
}

impl NdirState {
    pub open spec fn wf(&self) -> bool {
        view_wf(self@)
    }

    /// `baseline_target` — ON/OFF pairs to average for the ambient baseline.
    pub fn new(baseline_target: u32) -> (r: Self)
        ensures
            r.wf(),
            r@ == initial_view(baseline_target),
            !r@.lamp_on,
            r@.on_sample is None,
            r@.baseline_count == 0,
            r@.baseline_target == baseline_target,
            !r@.baseline_ready,
    {
        Self {
            lamp_on: false,
            on_sample: None,
            baseline_count: 0,
            baseline_target,
            baseline_ready: false,
        }
    }

    pub fn lamp_on(&self) -> (r: bool)
        ensures
            r == self@.lamp_on,
    {
        self.lamp_on
    }

    pub fn set_lamp_on(&mut self, on: bool)
        ensures
            final(self)@ == (NdirView { lamp_on: on, ..old(self)@ }),
    {
        self.lamp_on = on;
    }

    pub fn baseline_ready(&self) -> (r: bool)
        ensures
            r == self@.baseline_ready,
    {
        self.baseline_ready
    }

    /// Store the ON-phase sample.
    pub fn capture_on(&mut self, act: u16, reference: u16, temp: u16)
        ensures
            final(self)@ == capture_on_view(old(self)@, HalfSample { act, reference, temp }),
            final(self)@.on_sample == Some(HalfSample { act, reference, temp }),
            final(self)@.lamp_on == old(self)@.lamp_on,
            final(self)@.baseline_count == old(self)@.baseline_count,
            final(self)@.baseline_target == old(self)@.baseline_target,
            final(self)@.baseline_ready == old(self)@.baseline_ready,
    {
        self.on_sample = Some(HalfSample { act, reference, temp });
    }

    /// Store the OFF-phase sample, compute and return the processed pair.
    ///
    /// Returns `None` when no ON sample was previously captured, or when
    /// `ref_diff < REF_DIFF_MIN`.  Either way the stored ON sample is used up.
    pub fn capture_off_and_process(&mut self, act_off: u16, ref_off: u16, temp_off: u16) -> (r:
        Option<ProcessedSample>)
        requires
            old(self).wf(),
        ensures
            final(self).wf(),
            (final(self)@, r) == process_view(old(self)@, act_off, ref_off, temp_off),
            final(self)@.on_sample is None,
            r matches Some(p) ==> p.ref_diff >= REF_DIFF_MIN,
    {
        let on = match self.on_sample.take() {
            Some(on) => on,
            None => return None,
        };
        let act_diff = if on.act >= act_off { on.act - act_off } else { act_off - on.act };
        let ref_diff = if on.reference >= ref_off { on.reference - ref_off } else { ref_off - on.reference };
        let temp_avg_raw = ((on.temp as u32 + temp_off as u32) / 2) as u16;

        if ref_diff < REF_DIFF_MIN {
            return None;
        }

        if !self.baseline_ready {
            let count = self.baseline_count + 1;
            let ready = count >= self.baseline_target;
            self.baseline_count = count;
            self.baseline_ready = ready;
            return Some(
                ProcessedSample {
                    act_diff,
                    ref_diff,
                    temp_avg_raw,
                    baseline_ready: ready,
                    step: BaselineStep::Accumulate { count },
                },
            );
        }

        Some(
            ProcessedSample {
                act_diff,
                ref_diff,
                temp_avg_raw,
                baseline_ready: true,
                step: BaselineStep::Measure,
            },
        )
    }

    /// One half-period tick: when the lamp is on, store the sample and turn
    /// the lamp off; when it is off, process the pair and turn it back on.
    pub fn half_cycle(&mut self, act: u16, reference: u16, temp: u16) -> (r: HalfCycle)
        requires
            old(self).wf(),
        ensures
            final(self).wf(),
            (final(self)@, r) == half_cycle_view(old(self)@, HalfSample { act, reference, temp }),
            final(self)@.lamp_on == !old(self)@.lamp_on,
            old(self)@.lamp_on ==> r == HalfCycle::OnCaptured,
            !old(self)@.lamp_on ==> r == HalfCycle::OffProcessed(
                process_view(old(self)@, act, reference, temp).1,
            ),
    {
        if self.lamp_on() {
            self.capture_on(act, reference, temp);
            self.set_lamp_on(false);
            HalfCycle::OnCaptured
        } else {
            let r = self.capture_off_and_process(act, reference, temp);
            self.set_lamp_on(true);
            HalfCycle::OffProcessed(r)
        }
    }
}

} // verus!
