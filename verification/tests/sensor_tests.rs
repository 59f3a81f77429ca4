use ndir_sensor::sensor::{BaselineStep, HalfCycle, HalfSample, NdirState, ProcessedSample};

fn pair(ndir: &mut NdirState, on: (u16, u16, u16), off: (u16, u16, u16)) -> Option<ProcessedSample> {
    ndir.capture_on(on.0, on.1, on.2);
    ndir.capture_off_and_process(off.0, off.1, off.2)
}

#[test]
fn new_state_is_idle() {
    let ndir = NdirState::new(80);
    assert!(!ndir.lamp_on());
    assert!(!ndir.baseline_ready());
}

#[test]
fn lamp_flag_follows_setter() {
    let mut ndir = NdirState::new(3);
    ndir.set_lamp_on(true);
    assert!(ndir.lamp_on());
    ndir.set_lamp_on(false);
    assert!(!ndir.lamp_on());
}

#[test]
fn off_without_on_yields_nothing() {
    let mut ndir = NdirState::new(3);
    assert_eq!(ndir.capture_off_and_process(10, 10, 10), None);
    assert!(!ndir.baseline_ready());
}

#[test]
fn pair_carries_differences_and_mean_temperature() {
    let mut ndir = NdirState::new(5);
    let r = pair(&mut ndir, (600, 700, 3), (500, 600, 4));
    assert_eq!(
        r,
        Some(ProcessedSample {
            act_diff: 100,
            ref_diff: 100,
            temp_avg_raw: 3,
            baseline_ready: false,
            step: BaselineStep::Accumulate { count: 1 },
        })
    );
}

#[test]
fn differences_are_absolute() {
    let mut ndir = NdirState::new(5);
    let r = pair(&mut ndir, (100, 200, 1000), (350, 260, 1001)).unwrap();
    assert_eq!(r.act_diff, 250);
    assert_eq!(r.ref_diff, 60);
    assert_eq!(r.temp_avg_raw, 1000);
}

#[test]
fn temperature_mean_does_not_overflow() {
    let mut ndir = NdirState::new(5);
    let r = pair(&mut ndir, (0, 0, u16::MAX), (0, 100, u16::MAX)).unwrap();
    assert_eq!(r.temp_avg_raw, u16::MAX);
}

#[test]
fn ref_diff_guard_edge() {
    let mut ndir = NdirState::new(5);
    assert_eq!(pair(&mut ndir, (500, 500, 0), (400, 461, 0)), None);
    let r = pair(&mut ndir, (500, 500, 0), (400, 460, 0)).unwrap();
    assert_eq!(r.ref_diff, 40);
    assert_eq!(r.step, BaselineStep::Accumulate { count: 1 });
}

#[test]
fn on_sample_is_used_up() {
    let mut ndir = NdirState::new(5);
    assert!(pair(&mut ndir, (500, 500, 0), (400, 400, 0)).is_some());
    assert_eq!(ndir.capture_off_and_process(400, 400, 0), None);
}

#[test]
fn dropped_pair_uses_up_on_sample() {
    let mut ndir = NdirState::new(5);
    assert_eq!(pair(&mut ndir, (500, 500, 0), (500, 500, 0)), None);
    assert_eq!(ndir.capture_off_and_process(400, 400, 0), None);
}

#[test]
fn baseline_locks_after_target_pairs() {
    let mut ndir = NdirState::new(3);
    let steps: Vec<(BaselineStep, bool)> = (0..5)
        .map(|_| {
            let p = pair(&mut ndir, (600, 700, 0), (500, 600, 0)).unwrap();
            (p.step, p.baseline_ready)
        })
        .collect();
    assert_eq!(
        steps,
        vec![
            (BaselineStep::Accumulate { count: 1 }, false),
            (BaselineStep::Accumulate { count: 2 }, false),
            (BaselineStep::Accumulate { count: 3 }, true),
            (BaselineStep::Measure, true),
            (BaselineStep::Measure, true),
        ]
    );
    assert!(ndir.baseline_ready());
}

#[test]
fn dropped_pairs_do_not_count_toward_baseline() {
    let mut ndir = NdirState::new(2);
    assert!(pair(&mut ndir, (600, 700, 0), (500, 600, 0)).is_some());
    assert_eq!(pair(&mut ndir, (600, 700, 0), (500, 690, 0)), None);
    let p = pair(&mut ndir, (600, 700, 0), (500, 600, 0)).unwrap();
    assert_eq!(p.step, BaselineStep::Accumulate { count: 2 });
    assert!(p.baseline_ready);
}

#[test]
fn zero_target_locks_on_first_pair() {
    let mut ndir = NdirState::new(0);
    let p = pair(&mut ndir, (600, 700, 0), (500, 600, 0)).unwrap();
    assert_eq!(p.step, BaselineStep::Accumulate { count: 1 });
    assert!(p.baseline_ready);
    assert!(ndir.baseline_ready());
}

#[test]
fn half_cycles_alternate_and_pair_up() {
    let mut ndir = NdirState::new(1);
    ndir.set_lamp_on(true);
    assert_eq!(ndir.half_cycle(600, 700, 10), HalfCycle::OnCaptured);
    assert!(!ndir.lamp_on());
    let r = ndir.half_cycle(500, 600, 20);
    assert!(ndir.lamp_on());
    assert_eq!(
        r,
        HalfCycle::OffProcessed(Some(ProcessedSample {
            act_diff: 100,
            ref_diff: 100,
            temp_avg_raw: 15,
            baseline_ready: true,
            step: BaselineStep::Accumulate { count: 1 },
        }))
    );
    assert_eq!(ndir.half_cycle(600, 700, 10), HalfCycle::OnCaptured);
    match ndir.half_cycle(500, 600, 20) {
        HalfCycle::OffProcessed(Some(p)) => assert_eq!(p.step, BaselineStep::Measure),
        other => panic!("unexpected {:?}", other),
    }
}

#[test]
fn half_cycle_from_off_without_sample_skips() {
    let mut ndir = NdirState::new(1);
    assert_eq!(ndir.half_cycle(1, 2, 3), HalfCycle::OffProcessed(None));
    assert!(ndir.lamp_on());
}

#[test]
fn half_sample_default_is_zero() {
    let h = HalfSample::default();
    assert_eq!(h, HalfSample { act: 0, reference: 0, temp: 0 });
}
