//! Tests for the replay driver's pure core.

use fri3d_runtime::harness::RawEvent;
use fri3d_runtime::harness::ScriptError;
use fri3d_runtime::harness::ScriptEvent;
use fri3d_runtime::harness::TimedEvent;
use fri3d_runtime::harness::build_timed_events;
use fri3d_runtime::harness::fixed_end_time;
use fri3d_runtime::harness::next_due_time;
use fri3d_runtime::harness::within_duration;
use fri3d_runtime::harness::expand_script_events;
use fri3d_runtime::harness::parse_key;
use fri3d_runtime::harness::sort_raw_events;
use fri3d_runtime::types::InputKey;
use fri3d_runtime::types::InputType;

fn entry(t: u32, key: &str, kind: &str, dur: Option<u32>) -> ScriptEvent {
    ScriptEvent { time_ms: t, key: key.to_string(), kind: kind.to_string(), duration_ms: dur }
}

#[test]
fn parse_key_accepts_the_six_names() {
    assert_eq!(parse_key("up"), Some(InputKey::Up));
    assert_eq!(parse_key("down"), Some(InputKey::Down));
    assert_eq!(parse_key("left"), Some(InputKey::Left));
    assert_eq!(parse_key("right"), Some(InputKey::Right));
    assert_eq!(parse_key("ok"), Some(InputKey::Okay));
    assert_eq!(parse_key("back"), Some(InputKey::Back));
    assert_eq!(parse_key("fire"), None);
}

#[test]
fn short_press_expands_to_press_and_release() {
    let script = vec![entry(100, "ok", "short_press", None)];
    let raw = expand_script_events(&script).unwrap();
    assert_eq!(raw.len(), 2);
    assert_eq!(raw[0], RawEvent { time_ms: 100, key: InputKey::Okay, kind: InputType::Press });
    assert_eq!(raw[1], RawEvent { time_ms: 110, key: InputKey::Okay, kind: InputType::Release });
}

#[test]
fn long_press_duration_clamps_to_the_threshold() {
    let script = vec![entry(0, "back", "long_press", Some(50))];
    let raw = expand_script_events(&script).unwrap();
    assert_eq!(raw[1].time_ms, 300);

    let script = vec![entry(0, "back", "repeat", None)];
    let raw = expand_script_events(&script).unwrap();
    assert_eq!(raw[1].time_ms, 450);
}

#[test]
fn short_press_duration_stays_under_the_threshold() {
    let script = vec![entry(0, "ok", "short_press", Some(500))];
    let raw = expand_script_events(&script).unwrap();
    assert_eq!(raw[1].time_ms, 299);

    let script = vec![entry(0, "ok", "short_press", Some(299))];
    let raw = expand_script_events(&script).unwrap();
    assert_eq!(raw[1].time_ms, 299);
}

#[test]
fn unknown_names_are_rejected() {
    let script = vec![entry(0, "fire", "press", None)];
    match expand_script_events(&script) {
        Err(ScriptError::UnknownKey(name)) => assert_eq!(name, "fire"),
        _ => panic!("expected an unknown key error"),
    }

    let script = vec![entry(0, "ok", "tap", None)];
    match expand_script_events(&script) {
        Err(ScriptError::UnknownType(name)) => assert_eq!(name, "tap"),
        _ => panic!("expected an unknown type error"),
    }
}

#[test]
fn raw_events_sort_by_time_weight_and_key() {
    let mut raw = vec![
        RawEvent { time_ms: 50, key: InputKey::Back, kind: InputType::Release },
        RawEvent { time_ms: 50, key: InputKey::Up, kind: InputType::Press },
        RawEvent { time_ms: 10, key: InputKey::Okay, kind: InputType::Press },
        RawEvent { time_ms: 50, key: InputKey::Left, kind: InputType::Press },
    ];
    sort_raw_events(&mut raw);
    assert_eq!(raw[0].time_ms, 10);
    assert_eq!(raw[1], RawEvent { time_ms: 50, key: InputKey::Up, kind: InputType::Press });
    assert_eq!(raw[2], RawEvent { time_ms: 50, key: InputKey::Left, kind: InputType::Press });
    assert_eq!(raw[3], RawEvent { time_ms: 50, key: InputKey::Back, kind: InputType::Release });
}

#[test]
fn short_hold_synthesizes_a_short_press() {
    let raw = vec![
        RawEvent { time_ms: 0, key: InputKey::Okay, kind: InputType::Press },
        RawEvent { time_ms: 50, key: InputKey::Okay, kind: InputType::Release },
    ];
    let timed = build_timed_events(&raw);
    let kinds: Vec<InputType> = timed.iter().map(|e| e.kind).collect();
    assert_eq!(kinds, vec![InputType::Press, InputType::ShortPress, InputType::Release]);
    assert_eq!(timed[1].time_ms, 50);
}

#[test]
fn long_hold_synthesizes_long_press_and_repeats() {
    let raw = vec![
        RawEvent { time_ms: 0, key: InputKey::Okay, kind: InputType::Press },
        RawEvent { time_ms: 600, key: InputKey::Okay, kind: InputType::Release },
    ];
    let timed = build_timed_events(&raw);
    let expect = vec![
        TimedEvent { time_ms: 0, key: InputKey::Okay, kind: InputType::Press },
        TimedEvent { time_ms: 300, key: InputKey::Okay, kind: InputType::LongPress },
        TimedEvent { time_ms: 450, key: InputKey::Okay, kind: InputType::Repeat },
        TimedEvent { time_ms: 600, key: InputKey::Okay, kind: InputType::Release },
    ];
    assert_eq!(timed, expect);
}

#[test]
fn expansion_is_deterministic() {
    let build = || {
        let script = vec![
            entry(0, "ok", "short_press", None),
            entry(5, "left", "long_press", Some(700)),
            entry(5, "up", "press", None),
        ];
        let raw = expand_script_events(&script).unwrap();
        build_timed_events(&raw)
    };
    assert_eq!(build(), build());
}

#[test]
fn driver_step_decisions_follow_the_schedule() {
    // fixed mode ends at the later of the last frame and the last event
    assert_eq!(fixed_end_time(5, 16, 0), 64);
    assert_eq!(fixed_end_time(5, 16, 100), 100);
    assert_eq!(fixed_end_time(0, 16, 7), 7);

    // event mode advances to the earlier of event and timer
    assert_eq!(next_due_time(Some(30), Some(50)), Some(30));
    assert_eq!(next_due_time(Some(80), Some(50)), Some(50));
    assert_eq!(next_due_time(None, Some(50)), Some(50));
    assert_eq!(next_due_time(None, None), None);

    assert!(within_duration(100, None));
    assert!(within_duration(100, Some(100)));
    assert!(!within_duration(101, Some(100)));
}
