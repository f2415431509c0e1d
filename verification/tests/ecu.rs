use revlab::ecu::diag::{debounce, degraded, vote, DtcState, FaultEntry, Sensor, SpeedSource, Verdict, N_SENSORS};
use revlab::ecu::torque::{Source, N_SOURCES};
use revlab::ecu::{rate_triggers, select_speed, worst_severity, Rate};
use revlab::kernel::Trigger;

#[test]
fn rate_periods_and_offsets() {
    assert_eq!(Rate::Ms1.period().as_nanos(), 1_000_000);
    assert_eq!(Rate::Ms10.period().as_nanos(), 10_000_000);
    assert_eq!(Rate::Ms100.period().as_nanos(), 100_000_000);
    assert_eq!(Rate::Ms1.offset().as_nanos(), 200_000);
    assert_eq!(Rate::Ms10.offset().as_nanos(), 1_600_000);
    assert_eq!(Rate::Ms100.offset().as_nanos(), 2_800_000);
}

#[test]
fn triggers_read_back_as_their_rates() {
    let t = rate_triggers();
    assert_eq!(t.len(), 3);
    for (i, trig) in t.iter().enumerate() {
        let r = Rate::from_trig(i as u16);
        match *trig {
            Trigger::Periodic { period, offset } => {
                assert_eq!(period, r.period());
                assert_eq!(offset, r.offset());
            }
            Trigger::SelfPaced => panic!("ECU triggers are periodic"),
        }
    }
    assert_eq!(Rate::from_trig(0), Rate::Ms1);
    assert_eq!(Rate::from_trig(1), Rate::Ms10);
    assert_eq!(Rate::from_trig(7), Rate::Ms100);
}

#[test]
fn rates_never_share_a_timestamp() {
    let rates = [Rate::Ms1, Rate::Ms10, Rate::Ms100];
    let fires = |r: Rate, t: u64| {
        let (o, p) = (r.offset().as_nanos(), r.period().as_nanos());
        t >= o && (t - o) % p == 0
    };
    let mut t = 0u64;
    while t <= 1_000_000_000 {
        let n = rates.iter().filter(|r| fires(**r, t)).count();
        assert!(n <= 1, "rates collide at {t}");
        if n == 1 {
            // never on a whole millisecond, where the 1 ms plant step runs
            assert_ne!(t % 1_000_000, 0, "a rate runs with the plant step at {t}");
        }
        t += 100_000;
    }
    assert!(fires(Rate::Ms10, 1_600_000));
    assert!(fires(Rate::Ms100, 102_800_000));
}

#[test]
fn slots() {
    assert_eq!(Sensor::Crank.slot(), 0);
    assert_eq!(Sensor::Cam.slot(), 1);
    assert_eq!(N_SENSORS, 2);
    assert_eq!(Source::Idle.slot(), 0);
    assert_eq!(Source::RevLimit.slot(), 4);
    assert_eq!(N_SOURCES, 5);
}

#[test]
fn speed_selection_follows_source_and_validity() {
    assert_eq!(select_speed(SpeedSource::Crank, true, false, 800.0, 790.0), Some(800.0));
    assert_eq!(select_speed(SpeedSource::Crank, false, true, 800.0, 790.0), None);
    assert_eq!(select_speed(SpeedSource::Cam, false, true, 800.0, 790.0), Some(790.0));
    assert_eq!(select_speed(SpeedSource::Cam, true, false, 800.0, 790.0), None);
}

#[test]
fn fault_confirms_after_limit_failures_with_freeze_frame() {
    let mut e = FaultEntry::clear(0.0);
    for i in 1..30 {
        assert!(!debounce(&mut e, true, 30, 800.0, i as f64));
        assert_eq!(e.fail_count, i);
        assert_eq!(e.state, DtcState::Pending);
    }
    assert!(debounce(&mut e, true, 30, 812.5, 10.3));
    assert_eq!(e.state, DtcState::Confirmed);
    assert_eq!(e.fail_count, 30);
    assert_eq!(e.freeze_rpm, 812.5);
    assert_eq!(e.freeze_time_s, 10.3);
    // stays confirmed, freeze frame kept
    for _ in 0..40 {
        assert!(!debounce(&mut e, false, 30, 0.0, 99.0));
    }
    assert_eq!(e.state, DtcState::Confirmed);
    assert_eq!(e.fail_count, 0);
    assert_eq!(e.freeze_rpm, 812.5);
}

#[test]
fn pending_fault_heals() {
    let mut e = FaultEntry::clear(0.0);
    debounce(&mut e, true, 30, 0.0, 0.0);
    debounce(&mut e, true, 30, 0.0, 0.0);
    assert_eq!(e.state, DtcState::Pending);
    debounce(&mut e, false, 30, 0.0, 0.0);
    assert_eq!(e.state, DtcState::Pending);
    debounce(&mut e, false, 30, 0.0, 0.0);
    assert_eq!(e.state, DtcState::Passed);
    assert_eq!(e.fail_count, 0);
    debounce(&mut e, false, 30, 0.0, 0.0);
    assert_eq!(e.fail_count, 0);
}

#[test]
fn crank_confirmation_substitutes_cam() {
    let mut mem = [FaultEntry::clear(0.0); 2];
    let mut src = SpeedSource::Crank;
    let v = Verdict::Decisive(Some(Sensor::Crank));
    for _ in 0..2 {
        assert!(!vote(&mut mem, &mut src, v, 3, 0.0, 0.0));
        assert_eq!(src, SpeedSource::Crank);
    }
    vote(&mut mem, &mut src, v, 3, 900.0, 10.0);
    assert_eq!(src, SpeedSource::Cam);
    assert_eq!(mem[0].state, DtcState::Confirmed);
    assert_eq!(mem[1].state, DtcState::Passed);
    assert_eq!(worst_severity(&mem), 2);
    assert!(degraded(&mem, false));
}

#[test]
fn cam_confirmation_keeps_crank() {
    let mut mem = [FaultEntry::clear(0.0); 2];
    let mut src = SpeedSource::Crank;
    let v = Verdict::Decisive(Some(Sensor::Cam));
    for _ in 0..5 {
        vote(&mut mem, &mut src, v, 3, 0.0, 0.0);
    }
    assert_eq!(mem[1].state, DtcState::Confirmed);
    assert_eq!(src, SpeedSource::Crank);
}

#[test]
fn unattributable_disagreement_blames_no_one() {
    let mut mem = [FaultEntry::clear(0.0); 2];
    let mut src = SpeedSource::Crank;
    let v = Verdict::Unattributable;
    assert!(vote(&mut mem, &mut src, v, 3, 0.0, 0.0));
    assert_eq!(mem[0].fail_count, 0);
    assert_eq!(mem[1].fail_count, 0);
    assert!(degraded(&mem, true));
    assert!(!degraded(&mem, false));
    assert!(!vote(&mut mem, &mut src, Verdict::Agree, 3, 0.0, 0.0));
    assert_eq!(worst_severity(&mem), 0);
}

#[test]
fn only_the_blamed_sensor_counts_a_failure() {
    let mut mem = [FaultEntry::clear(0.0); 2];
    let mut src = SpeedSource::Crank;
    vote(&mut mem, &mut src, Verdict::Decisive(Some(Sensor::Cam)), 30, 0.0, 0.0);
    assert_eq!((mem[0].fail_count, mem[1].fail_count), (0, 1));
    vote(&mut mem, &mut src, Verdict::Decisive(Some(Sensor::Crank)), 30, 0.0, 0.0);
    assert_eq!((mem[0].fail_count, mem[1].fail_count), (1, 0));
    assert!(vote(&mut mem, &mut src, Verdict::Unattributable, 30, 0.0, 0.0));
    assert_eq!((mem[0].fail_count, mem[1].fail_count), (0, 0));
    assert!(!vote(&mut mem, &mut src, Verdict::Decisive(None), 30, 0.0, 0.0));
    assert_eq!((mem[0].fail_count, mem[1].fail_count), (0, 0));
    assert_eq!(src, SpeedSource::Crank);
}
