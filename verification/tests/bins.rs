use adb_input::bins::MotionBins;

#[test]
fn microburst_keeps_latest_and_stale_period_is_not_replayed() {
    let mut bins = MotionBins::new();
    assert_eq!(bins.accept(3, 0, 1_000_000, 1_000_000).unwrap().dx, 3);
    assert_eq!(bins.accept(5, 0, 1_008_000, 1_008_000), None);
    assert_eq!(bins.accept(30, 0, 1_008_010, 1_008_010), None);
    assert_eq!(bins.accept(7, 0, 1_016_000, 1_016_000).unwrap().dx, 30);
    assert_eq!(bins.take_due(1_024_000).unwrap().dx, 7);

    assert_eq!(bins.accept(9, 0, 1_032_000, 1_032_000), None);
    assert_eq!(bins.take_due(1_100_000), None);
    let resumed = bins.accept(11, 0, 1_108_000, 1_108_000).unwrap();
    assert_eq!(resumed.dx, 11);
    // The stale bin and the idle transition used up 4 and 5.
    assert_eq!(resumed.sequence, 6);
    assert_eq!(bins.take_due(1_116_000), None);

    bins.reset();
    assert_eq!(bins.accept(1, 0, 1_200_000, 1_200_000).unwrap().sequence, 7);
}

#[test]
fn bootstrap_after_discrete_keeps_latest_microreport() {
    let mut bins = MotionBins::new();
    bins.note_discrete(1_000_000);
    assert_eq!(bins.accept(4, 0, 1_000_010, 1_000_010), None);
    assert_eq!(bins.accept(9, 0, 1_000_020, 1_000_020), None);
    let bin = bins.take_due(1_001_020).unwrap();
    assert_eq!((bin.period_us, bin.dx), (0, 9));
}

#[test]
fn steady_high_rate_reports_are_aggregated_to_one_millisecond() {
    for cadence_us in [125_u64, 250] {
        let mut bins = MotionBins::new();
        let start = 1_000_000;
        let mut outputs = vec![bins.accept(1, 0, start, start).unwrap()];
        for step in 1..=32 {
            let now = start + step * cadence_us;
            if let Some(bin) = bins.accept(1, 0, now, now) {
                outputs.push(bin);
            }
            if let Some(bin) = bins.take_due(now) {
                outputs.push(bin);
            }
        }
        assert!(outputs.iter().any(|bin| bin.period_us == 1_000 && bin.dx >= 4));
    }
}

#[test]
fn ordinary_reports_within_period_accumulate_while_microcluster_keeps_latest() {
    let mut bins = MotionBins::new();
    bins.accept(1, 0, 1_000_000, 1_000_000);
    assert_eq!(bins.accept(4, 0, 1_008_000, 1_008_000), None);
    assert_eq!(bins.accept(30, 0, 1_008_010, 1_008_010), None);
    assert_eq!(bins.next_due_us(), Some(1_016_000));
    assert_eq!(bins.accept(5, 0, 1_014_000, 1_014_000), None);
    assert_eq!(bins.take_due(1_016_000).unwrap().dx, 35);
}

#[test]
fn sequences_only_grow() {
    let mut bins = MotionBins::new();
    let mut last = 0;
    for step in 0..40u64 {
        let now = 1_000_000 + step * 3_000;
        for bin in [bins.accept(2, -1, now, now), bins.take_due(now + 1_000)].into_iter().flatten() {
            assert!(bin.sequence > last);
            last = bin.sequence;
        }
        if step % 10 == 9 {
            bins.reset();
        }
    }
    assert!(last > 0);
}

#[test]
fn a_forced_bin_carries_what_is_pending() {
    let mut bins = MotionBins::new();
    bins.accept(1, 0, 1_000_000, 1_000_000);
    assert_eq!(bins.accept(4, 9, 1_008_000, 1_008_000), None);
    let bin = bins.take_now(1_008_100).unwrap();
    assert_eq!((bin.dx, bin.dy, bin.source_time_us), (4, 9, 1_008_000));
    assert_eq!(bins.take_now(1_008_200), None);
    assert_eq!(bins.next_due_us(), None);
}

#[test]
fn displacements_beyond_the_wire_are_clamped() {
    let mut bins = MotionBins::new();
    bins.accept(1, 0, 1_000_000, 1_000_000);
    assert_eq!(bins.accept(i32::MAX, i32::MIN, 1_008_000, 1_008_000), None);
    assert_eq!(bins.accept(i32::MAX, i32::MIN, 1_012_000, 1_012_000), None);
    let bin = bins.take_due(1_016_000).unwrap();
    assert_eq!((bin.dx, bin.dy), (i32::MAX, i32::MIN));
}
