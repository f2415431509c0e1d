use revlab::cli::{read_args, read_u64, ArgError, ArgStep, Flag};

fn args(v: &[&str]) -> Vec<Vec<char>> {
    v.iter().map(|s| s.chars().collect()).collect()
}

fn chars(s: &str) -> Vec<char> {
    s.chars().collect()
}

#[test]
fn u64_reading_matches_str_parse() {
    for s in ["0", "42", "+7", "00012", "18446744073709551615", "18446744073709551616", "", "+", "-1", "1a", " 1", "99999999999999999999"] {
        assert_eq!(read_u64(&chars(s)), s.parse::<u64>().ok(), "input {s:?}");
    }
}

#[test]
fn options_are_read_in_order() {
    let steps = read_args(&args(&["--scenario", "spool", "--seed", "42", "--plot", "--speed", "2.5", "--live", "--realtime", "--out", "x.csv"]));
    assert_eq!(steps.len(), 7);
    assert!(matches!(&steps[0], ArgStep::Scenario(v) if *v == chars("spool")));
    assert!(matches!(steps[1], ArgStep::Seed(42)));
    assert!(matches!(steps[2], ArgStep::Plot));
    assert!(matches!(&steps[3], ArgStep::Speed(v) if *v == chars("2.5")));
    assert!(matches!(steps[4], ArgStep::Live));
    assert!(matches!(steps[5], ArgStep::Realtime));
    assert!(matches!(&steps[6], ArgStep::Out(v) if *v == chars("x.csv")));
}

#[test]
fn reading_stops_at_list_and_at_refusals() {
    let steps = read_args(&args(&["--plot", "--list", "--bogus"]));
    assert_eq!(steps.len(), 2);
    assert!(matches!(steps[1], ArgStep::List));

    let steps = read_args(&args(&["--seed", "x", "--plot"]));
    assert_eq!(steps.len(), 1);
    assert!(matches!(steps[0], ArgStep::Fail(ArgError::SeedNotInteger)));

    let steps = read_args(&args(&["--live", "--out"]));
    assert_eq!(steps.len(), 2);
    assert!(matches!(steps[1], ArgStep::Fail(ArgError::NeedsValue(Flag::Out))));

    let steps = read_args(&args(&["--bogus", "--plot"]));
    assert_eq!(steps.len(), 1);
    assert!(matches!(&steps[0], ArgStep::Fail(ArgError::Unknown(v)) if *v == chars("--bogus")));

    assert!(read_args(&args(&[])).is_empty());
}
