use pixel_editor::cli::{Arguments, CliError};
use pixel_editor::clock::Clock;

fn argv(parts: &[&str]) -> Vec<String> {
    parts.iter().map(|s| s.to_string()).collect()
}

#[test]
fn arguments_split_named_and_unnamed() {
    let args = Arguments::new(argv(&[
        "pixel_editor",
        "--width",
        "10",
        "picture.ppt",
        "-scale",
        "4",
    ]))
    .unwrap();
    assert_eq!(args.path, "pixel_editor");
    assert_eq!(
        args.named,
        vec![
            ("width".to_string(), "10".to_string()),
            ("scale".to_string(), "4".to_string()),
        ]
    );
    assert_eq!(args.unnamed, vec!["picture.ppt".to_string()]);
}

#[test]
fn arguments_with_no_extras() {
    let args = Arguments::new(argv(&["pixel_editor"])).unwrap();
    assert!(args.named.is_empty());
    assert!(args.unnamed.is_empty());
}

#[test]
fn help_flags_are_reported() {
    assert_eq!(
        Arguments::new(argv(&["pixel_editor", "-h"])),
        Err(CliError::HelpRequested)
    );
    assert_eq!(
        Arguments::new(argv(&["pixel_editor", "--help"])),
        Err(CliError::HelpRequested)
    );
}

#[test]
fn flag_without_value_is_an_error() {
    assert_eq!(
        Arguments::new(argv(&["pixel_editor", "--scale"])),
        Err(CliError::MissingValue)
    );
}

#[test]
fn flag_value_may_itself_look_like_a_flag() {
    let args = Arguments::new(argv(&["pixel_editor", "--width", "-3"])).unwrap();
    assert_eq!(args.named, vec![("width".to_string(), "-3".to_string())]);
}

#[test]
fn clock_starts_at_zero() {
    let c = Clock::new();
    assert_eq!(c.cycles, 0);
    assert_eq!(c.lifetime, 0);
    assert_eq!(c.past_delta, 0);
    assert_eq!(c.prior_delta, 0);
}

#[test]
fn clock_update_records_the_two_most_recent_frames() {
    let mut c = Clock::new();
    c.update(5_000_000);
    c.update(7_000_000);
    assert_eq!(c.cycles, 2);
    assert_eq!(c.lifetime, 12_000_000);
    assert_eq!(c.past_delta, 7_000_000);
    assert_eq!(c.prior_delta, 5_000_000);
}

#[test]
fn fast_frames_are_slowed_toward_the_target() {
    let mut c = Clock::new();
    // One 10 ms frame after a 0 ms one: average 5 ms, target 30 ms.
    let pause = c.sleep(10_000_000);
    assert_eq!(pause, 25_000_000);
}

#[test]
fn slow_frames_get_no_pause() {
    let mut c = Clock::new();
    c.update(40_000_000);
    c.update(40_000_000);
    assert_eq!(c.frame_slowdown(), 0);
}

#[test]
fn log_cadence_is_every_fifteenth_cycle() {
    let mut c = Clock::new();
    assert!(c.should_log());
    for _ in 0..15 {
        c.update(1_000_000);
    }
    assert!(c.should_log());
    c.update(1_000_000);
    assert!(!c.should_log());
}
