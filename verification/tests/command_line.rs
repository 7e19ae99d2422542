use recurrent_visualizer::config::{Config, Notice, Outcome, Startup};
use recurrent_visualizer::plot::Plot;
use recurrent_visualizer::text::{chars_of, contains, parse_decimal, split_commas};

fn start(args: &[&str]) -> Startup {
    Config::from_args(&args.iter().map(|arg| arg.to_string()).collect())
}

fn run(args: &[&str]) -> Config {
    match start(args).outcome {
        Outcome::Run(cfg) => cfg,
        other => panic!("{:?}", other),
    }
}

#[test]
fn defaults_without_arguments() {
    let startup = start(&[]);
    assert!(startup.notices.is_empty());
    let cfg = run(&[]);
    assert!(!cfg.fullscreen && !cfg.stats && !cfg.list_displays && !cfg.list_devices);
    assert_eq!((cfg.fps, cfg.length, cfg.plot), (60, 1000, Plot::Three));
    assert_eq!((cfg.device, cfg.channels, cfg.display), (None, None, None));
}

#[test]
fn every_option_is_read() {
    let cfg = run(&[
        "-f", "--fps", "30", "--length", "600", "--device", "BlackHole", "--channels", "4,5",
        "--inputs", "2", "--stats", "--display", "2", "--list-displays",
    ]);
    assert!(cfg.fullscreen && cfg.stats && cfg.list_displays);
    assert_eq!((cfg.fps, cfg.length, cfg.plot), (30, 600, Plot::Two));
    assert_eq!(cfg.device.as_deref(), Some("BlackHole"));
    assert_eq!(cfg.channels, Some(vec![4, 5]));
    assert_eq!(cfg.display, Some(1));
    assert!(run(&["--fullscreen"]).fullscreen);
    assert_eq!(run(&["--inputs", "2", "--inputs", "3"]).plot, Plot::Three);
}

#[test]
fn numbers_that_are_none_leave_the_setting() {
    assert_eq!(run(&["--fps", "30", "--fps", "fast"]).fps, 30);
    assert_eq!(run(&["--fps"]).fps, 60);
    assert_eq!(run(&["--fps", "-1"]).fps, 60);
    assert_eq!(run(&["--fps", "0"]).fps, 1);
    assert_eq!(run(&["--fps", "18446744073709551615"]).fps, u64::MAX);
    assert_eq!(run(&["--fps", "18446744073709551616"]).fps, 60);
    assert_eq!(run(&["--length", "1e3"]).length, 1000);
    // The value is used up all the same.
    assert!(!run(&["--length", "-f"]).fullscreen);
    assert_eq!(run(&["--device", "a", "--device"]).device, None);
}

#[test]
fn lengths_are_confined() {
    let startup = start(&["--length", "5000"]);
    assert!(matches!(startup.notices[..], [Notice::LengthClamped { from: 5000, to: 4096 }]));
    assert!(matches!(startup.outcome, Outcome::Run(cfg) if cfg.length == 4096));
    let startup = start(&["--length", "0"]);
    assert!(matches!(startup.notices[..], [Notice::LengthClamped { from: 0, to: 1 }]));
    assert!(start(&["--length", "4096"]).notices.is_empty());
}

#[test]
fn unknown_arguments_are_told_and_ignored() {
    let startup = start(&["--what", "-f", "x"]);
    assert!(matches!(
        &startup.notices[..],
        [Notice::UnknownArgument(a), Notice::UnknownArgument(b)] if a == "--what" && b == "x"
    ));
    assert!(matches!(startup.outcome, Outcome::Run(cfg) if cfg.fullscreen));
}

#[test]
fn displays_count_from_one() {
    assert_eq!(run(&["--display", "1"]).display, Some(0));
    for bad in [&["--display", "0"][..], &["--display", "x"], &["--display"]] {
        assert!(matches!(start(bad).outcome, Outcome::BadDisplay));
    }
}

#[test]
fn bad_channels_are_refused() {
    assert!(matches!(start(&["--channels", "4;5"]).outcome, Outcome::BadChannels(raw) if raw == "4;5"));
    assert!(matches!(start(&["--channels"]).outcome, Outcome::BadChannels(raw) if raw.is_empty()));
    assert!(matches!(
        start(&["--channels", "4,5"]).outcome,
        Outcome::ChannelCount { wanted: 3, got: 2 }
    ));
    assert!(matches!(
        start(&["--list-devices", "--inputs", "2", "--channels", "4,5,6"]).outcome,
        Outcome::ChannelCount { wanted: 2, got: 3 }
    ));
}

#[test]
fn inputs_and_channels_may_come_in_either_order() {
    let a = run(&["--inputs", "2", "--channels", "4,5", "--stats"]);
    let b = run(&["--channels", "4,5", "--inputs", "2", "--stats"]);
    assert_eq!((a.plot, a.channels, a.stats), (b.plot, b.channels, b.stats));
}

#[test]
fn inputs_are_two_or_three() {
    assert!(matches!(start(&["--inputs", "4"]).outcome, Outcome::BadInputs(raw) if raw == "4"));
    assert!(matches!(start(&["--inputs"]).outcome, Outcome::BadInputs(raw) if raw.is_empty()));
}

#[test]
fn help_and_lists_end_the_start() {
    assert!(matches!(start(&["-h"]).outcome, Outcome::Help));
    let startup = start(&["--odd", "--help", "--display", "0"]);
    assert_eq!(startup.notices.len(), 1);
    assert!(matches!(startup.outcome, Outcome::Help));
    assert!(matches!(start(&["--list-devices"]).outcome, Outcome::ListDevices(3)));
    assert!(matches!(
        start(&["--list-devices", "--inputs", "2"]).outcome,
        Outcome::ListDevices(2)
    ));
}

#[test]
fn texts_are_read_by_character() {
    let chars = |s: &str| chars_of(s);
    assert_eq!(chars("aé"), vec!['a', 'é']);
    assert_eq!(parse_decimal(&chars("+0042"), 42), Some(42));
    assert_eq!(parse_decimal(&chars("43"), 42), None);
    assert_eq!(parse_decimal(&chars("4_2"), 100), None);
    assert_eq!(parse_decimal(&chars("++4"), 100), None);
    assert_eq!(parse_decimal(&chars(""), 100), None);
    assert!(contains(&chars("aab"), &chars("ab")));
    assert!(contains(&chars("aab"), &chars("")));
    assert!(!contains(&chars("aab"), &chars("ba")));
    assert_eq!(split_commas(&chars("a,,b")), vec![vec!['a'], vec![], vec!['b']]);
    assert_eq!(split_commas(&[]), vec![Vec::<char>::new()]);
}
