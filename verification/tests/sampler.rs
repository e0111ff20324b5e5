use adb_input::filter::{Delta, Filter, MotionBin, Reach};
use adb_input::forecast::budget_for;
use adb_input::sampler::{Forecast, ForecastRequest, MotionSampler, MouseOutput};

/// The agent's clock, in nanoseconds, when a test starts.
const START: u128 = 7_000_000_000;

fn ms(milliseconds: u64) -> u128 {
    START + u128::from(milliseconds) * 1_000_000
}

fn consistency(a: Delta, b: Delta) -> f64 {
    let dot = i128::from(a.dx) * i128::from(b.dx) + i128::from(a.dy) * i128::from(b.dy);
    let norm = |v: Delta| i128::from(v.dx) * i128::from(v.dx) + i128::from(v.dy) * i128::from(v.dy);
    if dot <= 0 {
        return 0.0;
    }
    let dot = dot as f64;
    (dot * dot / (norm(a) as f64 * norm(b) as f64)).clamp(0.0, 1.0)
}

fn forecast(request: &ForecastRequest) -> Forecast {
    let confidence = consistency(request.oldest, request.middle)
        .min(consistency(request.middle, request.newest));
    let reach = |last: i32| (i64::from(last).abs() as f64 * confidence).round() as u64;
    Forecast {
        source_id: request.source_id,
        reach: Reach { dx: reach(request.newest.dx), dy: reach(request.newest.dy) },
    }
}

fn tick(sampler: &mut MotionSampler, now: u128) -> Option<MouseOutput> {
    let forecasts: Vec<Forecast> = sampler.forecasts_due(now).iter().map(forecast).collect();
    sampler.tick(now, &forecasts)
}

fn move_x(output: Option<MouseOutput>) -> i32 {
    output.map_or(0, |output| output.dx)
}

fn timed(sequence: u64, source_time_us: u64, dx: i32) -> MotionBin {
    MotionBin { source_id: 1, sequence, period_us: 8_000, source_time_us, dx, dy: 0 }
}

fn bin(sampler: &mut MotionSampler, now: u128, sequence: u64, dx: i32) {
    sampler.accept_bin(timed(sequence, 1_000_000 + sequence * 8_000, dx), now);
}

/// Three bins of `dx`, one each period, all of them sampled.
fn three(dx: i32) -> MotionSampler {
    let mut sampler = MotionSampler::new();
    for sequence in 1..=3 {
        let now = ms((sequence - 1) * 8);
        bin(&mut sampler, now, sequence, dx);
        if sequence == 1 {
            sampler.take_immediate(now);
        } else {
            tick(&mut sampler, now);
        }
    }
    sampler
}

#[test]
fn newest_bin_is_sampled_once_and_split_without_drift() {
    let mut sampler = MotionSampler::new();
    bin(&mut sampler, ms(0), 1, 50);
    bin(&mut sampler, ms(0), 2, 11);
    bin(&mut sampler, ms(0), 3, 21);
    assert_eq!(move_x(sampler.take_immediate(ms(0))), 11);
    // A stale sequence with an impossible time cannot spoil the clock.
    sampler.accept_bin(timed(2, 2_000_000, 900), ms(0));
    assert_eq!(move_x(tick(&mut sampler, ms(8))), 10);
    assert_eq!(sampler.next_tick(), None);

    bin(&mut sampler, ms(16), 4, 12);
    assert_eq!(move_x(sampler.take_immediate(ms(16))), 6);

    bin(&mut sampler, ms(20), 5, -15);
    assert_eq!(move_x(sampler.take_immediate(ms(20))), -8);
    assert_eq!(move_x(tick(&mut sampler, ms(28))), -7);
    assert_eq!(tick(&mut sampler, ms(36)), None);
    assert_eq!(sampler.next_tick(), None);
}

#[test]
fn one_count_restart_is_visible_without_waiting_for_the_tail() {
    let mut sampler = MotionSampler::new();
    sampler.accept_bin(
        MotionBin {
            source_id: 1,
            sequence: 1,
            period_us: 8_000,
            source_time_us: 1_000_000,
            dx: 1,
            dy: -1,
        },
        ms(0),
    );
    let first = sampler.take_immediate(ms(0)).unwrap();
    assert_eq!([first.dx, first.dy], [1, -1]);
    assert_eq!(tick(&mut sampler, ms(8)), None);
}

#[test]
fn steady_samples_blend_neighbors_but_a_late_tick_drops_the_old_tail() {
    let mut sampler = MotionSampler::new();
    bin(&mut sampler, ms(0), 1, 20);
    assert_eq!(move_x(sampler.take_immediate(ms(0))), 10);
    bin(&mut sampler, ms(8), 2, 40);
    assert_eq!(move_x(tick(&mut sampler, ms(8))), 30);
    assert_eq!(move_x(tick(&mut sampler, ms(16))), 20);
    assert_eq!(sampler.next_tick(), None);

    bin(&mut sampler, ms(24), 3, 10);
    assert_eq!(move_x(sampler.take_immediate(ms(24))), 5);
    bin(&mut sampler, ms(32), 4, 12);
    assert_eq!(move_x(tick(&mut sampler, ms(50))), 0);
    assert_eq!(sampler.next_tick(), None);
}

#[test]
fn discrete_flush_preserves_click_position_and_bootstrap_is_direct() {
    let mut sampler = MotionSampler::new();
    sampler.accept_bin(
        MotionBin {
            source_id: 1,
            sequence: 1,
            period_us: 0,
            source_time_us: 1_000_000,
            dx: 7,
            dy: -3,
        },
        ms(0),
    );
    assert_eq!(sampler.take_immediate(ms(0)).unwrap().dx, 7);
    assert_eq!(sampler.next_tick(), None);
    bin(&mut sampler, ms(0), 2, 11);
    assert_eq!(move_x(sampler.take_immediate(ms(0))), 6);
    bin(&mut sampler, ms(0), 3, 9);
    assert_eq!(move_x(sampler.flush_at(ms(0))), 14);
    assert_eq!(
        sampler.discrete(1, 4, 0, 1),
        MouseOutput { buttons: 1, dx: 4, dy: 0, wheel: 1 }
    );
    assert_eq!(sampler.next_tick(), None);
    sampler.reset();
    assert_eq!(sampler.discrete(0, 0, 0, 0).buttons, 0);
}

#[test]
fn a_transport_stall_or_missing_bin_does_not_replay_old_motion() {
    let mut sampler = MotionSampler::new();
    bin(&mut sampler, ms(0), 1, 20);
    assert_eq!(move_x(sampler.take_immediate(ms(0))), 10);
    // On the host only 8 ms passed, but the bin arrives 100 ms later.
    bin(&mut sampler, ms(100), 2, 400);
    assert!(sampler.next_tick().is_some());
    assert_eq!(move_x(tick(&mut sampler, ms(100))), 0);
    assert_eq!(sampler.next_tick(), None);

    sampler.accept_bin(timed(3, 1_100_000, 12), ms(101));
    assert_eq!(move_x(sampler.take_immediate(ms(101))), 6);
    assert_eq!(move_x(tick(&mut sampler, ms(109))), 6);

    sampler.accept_bin(timed(4, 1_119_000, 18), ms(120));
    assert_eq!(move_x(sampler.take_immediate(ms(120))), 9);
    // Sequence 5 was lost: bin 6 does not blend with the tail of bin 4.
    sampler.accept_bin(timed(6, 1_120_000, 14), ms(121));
    assert_eq!(move_x(sampler.take_immediate(ms(121))), 7);
}

#[test]
fn steady_motion_predicts_a_short_tail_with_at_most_one_bin_of_overshoot() {
    let mut sampler = MotionSampler::new();
    for sequence in 1..=3 {
        let now = ms((sequence - 1) * 8);
        bin(&mut sampler, now, sequence, 20);
        if sequence == 1 {
            assert_eq!(move_x(sampler.take_immediate(now)), 10);
        } else {
            assert_eq!(move_x(tick(&mut sampler, now)), 20);
        }
    }
    let mut tail = vec![move_x(tick(&mut sampler, ms(24)))];
    while let Some(due) = sampler.next_tick() {
        tail.push(move_x(tick(&mut sampler, due)));
    }
    assert_eq!(tail[0], 10);
    assert_eq!(tail[1], 5);
    assert_eq!(tail.iter().sum::<i32>(), 25);
    assert_eq!(sampler.next_tick(), None);
}

#[test]
fn late_rejection_does_not_resurrect_old_motion() {
    let mut sampler = three(128);
    assert_eq!(move_x(tick(&mut sampler, ms(24))), 64);
    assert_eq!(move_x(tick(&mut sampler, ms(28))), 32);
    assert_eq!(move_x(tick(&mut sampler, ms(36))), 48);
    assert_eq!(move_x(tick(&mut sampler, ms(44))), 16);
    assert_eq!(sampler.next_tick(), None);
    sampler.accept_bin(timed(4, 1_032_000, 900), ms(60));
    assert_eq!(sampler.next_tick(), None);
    assert_eq!(sampler.take_immediate(ms(60)), None);
    sampler.accept_bin(timed(5, 1_080_000, 40), ms(65));
    assert_eq!(move_x(sampler.take_immediate(ms(65))), 20);
}

#[test]
fn reversal_and_release_clear_the_prediction() {
    let mut sampler = three(20);
    assert_eq!(move_x(tick(&mut sampler, ms(24))), 10);
    assert_eq!(move_x(tick(&mut sampler, ms(28))), 5);
    bin(&mut sampler, ms(29), 4, -20);
    assert_eq!(move_x(sampler.take_immediate(ms(29))), -10);
    assert_eq!(move_x(sampler.flush_at(ms(29))), -10);
    assert_eq!(sampler.next_tick(), None);
    sampler.reset();
    assert_eq!(sampler.next_tick(), None);
    assert_eq!(tick(&mut sampler, ms(40)), None);
}

#[test]
fn one_fresh_bin_after_a_gap_does_not_rearm_prediction() {
    let mut sampler = three(20);
    assert_eq!(move_x(tick(&mut sampler, ms(24))), 10);
    assert_eq!(move_x(tick(&mut sampler, ms(28))), 5);
    bin(&mut sampler, ms(30), 4, 20);
    assert_eq!(move_x(tick(&mut sampler, ms(36))), 10);
    assert_eq!(move_x(tick(&mut sampler, ms(44))), 5);
    assert_eq!(tick(&mut sampler, ms(52)), None);
    assert_eq!(sampler.next_tick(), None);
}

#[test]
fn learned_bin_cadence_does_not_predict_between_ordinary_bins() {
    let mut sampler = MotionSampler::new();
    for sequence in 1..=4 {
        let now = ms((sequence - 1) * 14);
        sampler.accept_bin(timed(sequence, 1_000_000 + sequence * 14_000, 20), now);
        assert_eq!(move_x(sampler.take_immediate(now)), 10);
        assert_eq!(move_x(tick(&mut sampler, now + 8_000_000)), 10);
    }
    // A report takes 8 ms, but bins arrive every 14 ms: the forecast waits for longer.
    let due = sampler.next_tick().unwrap();
    assert!(due > ms(56));
    assert_eq!(move_x(tick(&mut sampler, due)), 5);
}

#[test]
fn click_flush_cancels_unemitted_prediction_and_old_pending_motion() {
    let mut sampler = three(20);
    assert_eq!(move_x(tick(&mut sampler, ms(24))), 10);
    assert_eq!(move_x(tick(&mut sampler, ms(28))), 5);
    assert_eq!(sampler.flush_at(ms(29)), None);
    assert_eq!(sampler.next_tick(), None);

    let mut sampler = three(20);
    tick(&mut sampler, ms(24));
    assert_eq!(move_x(tick(&mut sampler, ms(28))), 5);
    bin(&mut sampler, ms(29), 4, 20);
    assert_eq!(move_x(sampler.flush_at(ms(29))), 15);

    let mut sampler = MotionSampler::new();
    bin(&mut sampler, ms(0), 1, 20);
    sampler.take_immediate(ms(0));
    bin(&mut sampler, ms(8), 2, 200);
    assert_eq!(move_x(sampler.flush_at(ms(30))), 10);
}

#[test]
fn heartbeat_keeps_clock_baseline_across_idle_before_rejecting_late_motion() {
    let mut sampler = MotionSampler::new();
    sampler.observe_clock(1_000_000, ms(0));
    sampler.accept_bin(timed(1, 1_000_000, 20), ms(0));
    assert_eq!(move_x(sampler.take_immediate(ms(0))), 10);
    tick(&mut sampler, ms(8));
    tick(&mut sampler, ms(16));
    sampler.observe_clock(6_000_000, ms(5_000));
    sampler.accept_bin(timed(2, 6_010_000, 200), ms(5_080));
    assert_eq!(sampler.take_immediate(ms(5_080)), None);
    assert_eq!(sampler.next_tick(), None);
}

#[test]
fn directional_confidence_handles_full_i32_range() {
    let delta = Delta { dx: i32::MAX, dy: i32::MIN };
    let request =
        ForecastRequest { source_id: 1, oldest: delta, middle: delta, newest: delta };
    let reach = forecast(&request).reach;
    assert_eq!(
        [budget_for(delta.dx, reach.dx, 0), budget_for(delta.dy, reach.dy, 0)],
        [i64::from(delta.dx), i64::from(delta.dy)]
    );
    assert_eq!(consistency(delta, Delta { dx: -delta.dx, dy: i32::MAX }), 0.0);
}

#[test]
fn a_repeated_bin_changes_nothing() {
    let mut once = MotionSampler::new();
    let mut twice = MotionSampler::new();
    bin(&mut once, ms(0), 1, 30);
    bin(&mut twice, ms(0), 1, 30);
    bin(&mut twice, ms(1), 1, 30);
    assert_eq!(move_x(once.take_immediate(ms(2))), 15);
    assert_eq!(move_x(twice.take_immediate(ms(2))), 15);
    assert_eq!(once.next_tick(), twice.next_tick());
}

#[test]
fn sources_are_sampled_apart_and_reported_together() {
    let mut sampler = MotionSampler::new();
    bin(&mut sampler, ms(0), 1, 20);
    sampler.accept_bin(
        MotionBin {
            source_id: 2,
            sequence: 1,
            period_us: 8_000,
            source_time_us: 1_008_000,
            dx: 4,
            dy: 6,
        },
        ms(0),
    );
    let output = sampler.take_immediate(ms(0)).unwrap();
    assert_eq!([output.dx, output.dy], [12, 3]);
}

#[test]
fn a_fresh_or_reset_sampler_is_silent() {
    let mut sampler = MotionSampler::new();
    assert_eq!(sampler.take_immediate(ms(0)), None);
    assert_eq!(tick(&mut sampler, ms(8)), None);
    bin(&mut sampler, ms(0), 1, 20);
    sampler.reset();
    assert_eq!(sampler.next_tick(), None);
    assert_eq!(sampler.flush_at(ms(8)), None);
}

#[test]
fn displacement_is_conserved_over_samples_and_flush() {
    let mut sampler = MotionSampler::new();
    let mut sum = 0;
    for sequence in 1..=5 {
        let now = ms((sequence - 1) * 8);
        bin(&mut sampler, now, sequence, 2 * sequence as i32 + 1);
        sum += move_x(sampler.take_immediate(now));
        sum += move_x(tick(&mut sampler, now));
    }
    sum += move_x(sampler.flush_at(ms(33)));
    assert_eq!(sum, 3 + 5 + 7 + 9 + 11);
}

#[test]
fn a_forecast_reaches_no_farther_than_the_last_bin_and_repays_its_debt() {
    assert_eq!(budget_for(20, 100, 0), 20);
    assert_eq!(budget_for(20, 15, 0), 15);
    assert_eq!(budget_for(20, 15, 5), 10);
    assert_eq!(budget_for(20, 15, -5), 15);
    assert_eq!(budget_for(-20, 15, -18), 0);
}

#[test]
fn samples_add_up_to_the_bins() {
    let mut filter = Filter::new();
    let bins = [(3, -1), (-8, 5), (1, 1), (32_767, -32_767), (0, 7)];
    let mut emitted = Vec::new();
    for (dx, dy) in bins {
        emitted.push(filter.sample(Delta { dx, dy }, false));
    }
    emitted.push(filter.sample(Delta { dx: 0, dy: 0 }, false));
    assert_eq!(emitted[0], Delta { dx: 2, dy: -1 });
    assert_eq!(emitted.iter().map(|sample| sample.dx).sum::<i32>(), 32_763);
    assert_eq!(emitted.iter().map(|sample| sample.dy).sum::<i32>(), -32_755);
    assert_eq!(filter.sample(Delta { dx: 0, dy: 0 }, false), Delta { dx: 0, dy: 0 });
}
