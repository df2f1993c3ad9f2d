//! Tests for the two input managers.

use fri3d_runtime::bitinput;
use fri3d_runtime::bitinput::InputEvent;
use fri3d_runtime::bitinput::InputType;
use fri3d_runtime::input;
use fri3d_runtime::types::InputKey;

#[test]
fn test_short_press() {
    let mut input = bitinput::InputManager::new();

    input.key_down(InputKey::Okay, 0);
    input.key_up(InputKey::Okay, 100);

    // Should have Press, Short, Release: the release is always last
    assert!(matches!(
        input.poll_event(),
        Some(InputEvent {
            key: InputKey::Okay,
            event_type: InputType::Press
        })
    ));
    assert!(matches!(
        input.poll_event(),
        Some(InputEvent {
            key: InputKey::Okay,
            event_type: InputType::Short
        })
    ));
    assert!(matches!(
        input.poll_event(),
        Some(InputEvent {
            key: InputKey::Okay,
            event_type: InputType::Release
        })
    ));
    assert!(input.poll_event().is_none());
}

#[test]
fn test_long_press() {
    let mut input = bitinput::InputManager::new();

    input.key_down(InputKey::Okay, 0);
    input.update(600);
    input.key_up(InputKey::Okay, 600);

    // Should have Press, Long, Release (no Short because long was fired)
    assert!(matches!(
        input.poll_event(),
        Some(InputEvent {
            key: InputKey::Okay,
            event_type: InputType::Press
        })
    ));
    assert!(matches!(
        input.poll_event(),
        Some(InputEvent {
            key: InputKey::Okay,
            event_type: InputType::Long
        })
    ));
    assert!(matches!(
        input.poll_event(),
        Some(InputEvent {
            key: InputKey::Okay,
            event_type: InputType::Release
        })
    ));
    assert!(input.poll_event().is_none());
}

#[test]
fn short_press_sequence_survives_intermediate_updates() {
    let mut m = input::InputManager::new();
    let press = vec![input::InputEvent {
        key: InputKey::Okay,
        kind: fri3d_runtime::types::InputType::Press,
    }];
    let release = vec![input::InputEvent {
        key: InputKey::Okay,
        kind: fri3d_runtime::types::InputType::Release,
    }];
    let none: Vec<input::InputEvent> = Vec::new();

    m.update(&press, 1000);
    m.update(&none, 1050);
    m.update(&none, 1100);
    m.update(&none, 1250);
    m.update(&release, 1299);

    let kinds: Vec<_> = std::iter::from_fn(|| m.next_event()).map(|e| e.kind).collect();
    assert_eq!(
        kinds,
        vec![
            fri3d_runtime::types::InputType::Press,
            fri3d_runtime::types::InputType::ShortPress,
            fri3d_runtime::types::InputType::Release,
        ]
    );
}

#[test]
fn long_hold_fires_long_press_then_repeats() {
    let mut m = input::InputManager::new();
    let press = vec![input::InputEvent {
        key: InputKey::Up,
        kind: fri3d_runtime::types::InputType::Press,
    }];
    let none: Vec<input::InputEvent> = Vec::new();

    m.update(&press, 0);
    m.update(&none, 300);
    m.update(&none, 450);
    m.update(&none, 460);
    m.update(&none, 600);

    let kinds: Vec<_> = std::iter::from_fn(|| m.next_event()).map(|e| e.kind).collect();
    assert_eq!(
        kinds,
        vec![
            fri3d_runtime::types::InputType::Press,
            fri3d_runtime::types::InputType::LongPress,
            fri3d_runtime::types::InputType::Repeat,
            fri3d_runtime::types::InputType::Repeat,
        ]
    );
}

#[test]
fn reset_combo_fires_after_hold() {
    let mut m = input::InputManager::new();
    let both = vec![
        input::InputEvent { key: InputKey::Left, kind: fri3d_runtime::types::InputType::Press },
        input::InputEvent { key: InputKey::Back, kind: fri3d_runtime::types::InputType::Press },
    ];
    let none: Vec<input::InputEvent> = Vec::new();

    m.update(&both, 0);
    assert!(!m.take_reset_request());
    m.update(&none, 499);
    assert!(!m.take_reset_request());
    m.update(&none, 500);
    assert!(m.take_reset_request());
    assert!(!m.take_reset_request());
}

#[test]
fn queue_drops_events_when_full() {
    let mut m = bitinput::InputManager::new();
    // sixteen events fill the queue; everything beyond is dropped
    for i in 0..20u32 {
        m.key_down(InputKey::Up, i * 10);
        m.key_up(InputKey::Up, i * 10 + 1);
    }
    let mut count = 0;
    while m.poll_event().is_some() {
        count += 1;
    }
    assert_eq!(count, 16);
}

#[test]
fn is_pressed_tracks_key_state() {
    let mut m = bitinput::InputManager::new();
    assert!(!m.is_pressed(InputKey::Down));
    m.key_down(InputKey::Down, 5);
    assert!(m.is_pressed(InputKey::Down));
    m.key_up(InputKey::Down, 10);
    assert!(!m.is_pressed(InputKey::Down));
}
