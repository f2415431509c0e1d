use revlab::kernel::Blackboard;
use revlab::load::LoadProfile;
use revlab::plant::{gear_index, N_GEARS};
use revlab::sensors::{fire_armed, next_step, quantize_period, PRESENT, TEETH};
use revlab::time::{SimDuration, SimTime};
use revlab::wear::{is_whitespace, parse_wear, parse_wear_line, WearLine};

fn at_ms(ms: u64) -> SimTime {
    SimTime::zero().add(SimDuration::from_millis(ms))
}

#[test]
fn crank_wheel_steps_across_the_gap() {
    assert_eq!((TEETH, PRESENT), (60, 58));
    assert_eq!(next_step(0), (1, 1));
    assert_eq!(next_step(56), (57, 1));
    assert_eq!(next_step(57), (0, 3));
    let mut tooth = 0;
    let mut pitches = 0;
    for _ in 0..58 {
        let (t, p) = next_step(tooth);
        tooth = t;
        pitches += p;
    }
    assert_eq!((tooth, pitches), (0, 60));
}

#[test]
fn capture_timer_quantizes_down() {
    assert_eq!(quantize_period(1_234_567, 50), 1_234_550);
    assert_eq!(quantize_period(49, 50), 0);
    assert_eq!(quantize_period(100, 50), 100);
}

#[test]
fn gears() {
    assert_eq!(N_GEARS, 7);
    assert_eq!(gear_index(0, N_GEARS), None);
    assert_eq!(gear_index(1, N_GEARS), Some(0));
    assert_eq!(gear_index(7, N_GEARS), Some(6));
    assert_eq!(gear_index(8, N_GEARS), None);
}

#[test]
fn load_profile_sorts_steps_stably_and_reaches_them_in_time() {
    let mut bus: Blackboard<f64> = Blackboard::new();
    let port = bus.alloc_slot(0.0);
    let steps = vec![(at_ms(5), 60.0), (at_ms(2), 1.0), (at_ms(5), 80.0), (at_ms(0), 0.5)];
    let mut p = LoadProfile::new(steps, port, 0.0);
    assert_eq!(p.ramp(), None);
    assert_eq!(p.advance(at_ms(0)), 0.5);
    assert_eq!(p.advance(at_ms(1)), 0.5);
    p.set_current(0.5);
    assert_eq!(p.advance(at_ms(3)), 1.0);
    assert_eq!(p.ramp_from(), 0.5);
    assert_eq!(p.ramp_start(), at_ms(2));
    p.set_current(1.0);
    // both 5 ms steps are reached; the later-listed one wins
    assert_eq!(p.advance(at_ms(5)), 80.0);
    assert_eq!(p.ramp_start(), at_ms(5));
    assert_eq!(p.current(), 1.0);
    let p = p.ramped(SimDuration::from_millis(100));
    assert_eq!(p.ramp(), Some(SimDuration::from_millis(100)));
}

#[test]
fn load_profile_before_first_step_holds_start_value() {
    let mut bus: Blackboard<f64> = Blackboard::new();
    let port = bus.alloc_slot(0.0);
    let mut p = LoadProfile::new(vec![(at_ms(10), 3.0)], port, 0.0);
    assert_eq!(p.advance(at_ms(9)), 0.0);
    assert_eq!(p.advance(at_ms(10)), 3.0);
}

fn chars(s: &str) -> Vec<char> {
    s.chars().collect()
}

fn s(v: &[char]) -> String {
    v.iter().collect()
}

#[test]
fn wear_file_lines() {
    let text = chars("# Revlab accumulated wear\n\nclutch_wear = 1.5e-3  # mm\r\n  glaze=0.1\nbroken line\n\u{a0}key2 =  7 \u{3000}");
    let lines = parse_wear(&text);
    assert_eq!(lines.len(), 4);
    match &lines[0] {
        WearLine::Entry { line, key, value } => {
            assert_eq!(*line, 3);
            assert_eq!(s(key), "clutch_wear");
            assert_eq!(s(value), "1.5e-3");
        }
        _ => panic!("expected an entry"),
    }
    match &lines[1] {
        WearLine::Entry { line, key, value } => {
            assert_eq!((*line, s(key), s(value)), (4, "glaze".to_string(), "0.1".to_string()));
        }
        _ => panic!("expected an entry"),
    }
    assert!(matches!(lines[2], WearLine::Malformed { line: 5 }));
    match &lines[3] {
        WearLine::Entry { line, key, value } => {
            assert_eq!((*line, s(key), s(value)), (6, "key2".to_string(), "7".to_string()));
        }
        _ => panic!("expected an entry"),
    }
}

#[test]
fn wear_line_splits_at_first_equals() {
    match parse_wear_line(&chars(" a = b = c "), 0) {
        Some(WearLine::Entry { key, value, .. }) => {
            assert_eq!(s(&key), "a");
            assert_eq!(s(&value), "b = c");
        }
        _ => panic!("expected an entry"),
    }
    assert!(parse_wear_line(&chars("   # only a comment"), 1).is_none());
    assert!(matches!(parse_wear_line(&chars("=5"), 2), Some(WearLine::Entry { .. })));
    assert!(parse_wear(&chars("")).is_empty());
    // a lone carriage return does not end a line; trimming removes it from the value
    let l = parse_wear(&chars("k = v\r"));
    match &l[0] {
        WearLine::Entry { value, .. } => assert_eq!(s(value), "v"),
        _ => panic!("expected an entry"),
    }
    assert!(is_whitespace('\u{2028}'));
    assert!(!is_whitespace('x'));
}

#[test]
fn armed_fault_fires_once_when_due() {
    let t = |ns: u64| SimTime::zero().add(SimDuration::from_nanos(ns));
    let mut armed: Option<(SimTime, char)> = Some((t(1_000), 'x'));
    assert_eq!(fire_armed(&mut armed, t(999)), None);
    assert_eq!(armed, Some((t(1_000), 'x')));
    assert_eq!(fire_armed(&mut armed, t(1_000)), Some('x'));
    assert_eq!(armed, None);
    assert_eq!(fire_armed(&mut armed, t(5_000)), None);
}
