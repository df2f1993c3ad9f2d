//! The embedded input manager: raw edges arrive as `key_down` / `key_up`
//! calls, a per-frame `update` synthesizes long presses and repeats, and a
//! bounded FIFO queue hands the events out. A quick release emits `Short`
//! and then `Release`, so `Release` is always the last event of a key's
//! press cycle; events past the queue capacity are dropped.

use vstd::prelude::*;

use crate::input::KeyState;
use crate::input::sat_sub;
use crate::types::InputKey;
use crate::types::KEY_COUNT;

verus! {

/// Hold time under which a release counts as a short press.
pub const SHORT_PRESS_MAX_MS: u32 = 300;

/// Hold time at which a press becomes a long press.
pub const LONG_PRESS_MS: u32 = 300;

/// Hold time of Left+Back that triggers the reset combo.
pub const RESET_COMBO_MS: u32 = 500;

/// Interval between auto-repeat events.
pub const REPEAT_RATE_MS: u32 = 150;

/// Queue capacity.
pub const EVENT_QUEUE_CAP: usize = 16;

/// Input event kinds of the embedded manager.
#[derive(Clone, Copy, PartialEq, Eq, Structural, Debug)]
pub enum InputType {
    /// Key went down (raw).
    Press,
    /// Key went up (raw).
    Release,
    /// Released before the long-press threshold.
    Short,
    /// Held past the long-press threshold.
    Long,
    /// Held down, repeating.
    Repeat,
}

/// An input event of the embedded manager.
#[derive(Clone, Copy, PartialEq, Eq, Structural, Debug)]
pub struct InputEvent {
    pub key: InputKey,
    pub event_type: InputType,
}

/// The mathematical state of the embedded input manager.
pub struct KeypadModel {
    /// One state per key, indexed by `InputKey::index`.
    pub keys: Seq<KeyState>,
    /// The event queue, oldest first.
    pub queue: Seq<InputEvent>,
    /// When the Left+Back combo window opened, if it is open.
    pub reset_start: Option<u32>,
    /// Whether a reset fired and has not yet been taken.
    pub reset_pending: bool,
}

/// Append to the queue, dropping the event when it is full.
pub open spec fn kp_enqueue(q: Seq<InputEvent>, e: InputEvent) -> Seq<InputEvent> {
    if q.len() >= 16 {
        q
    } else {
        q.push(e)
    }
}

/// A raw press edge: ignored while the key is already down.
pub open spec fn kp_down(m: KeypadModel, key: InputKey, t: u32) -> KeypadModel {
    if m.keys[key.index()].pressed {
        m
    } else {
        KeypadModel {
            keys: m.keys.update(
                key.index(),
                KeyState {
                    pressed: true,
                    press_time: t,
                    long_press_fired: false,
                    last_repeat_time: t,
                },
            ),
            queue: kp_enqueue(m.queue, InputEvent { key, event_type: InputType::Press }),
            ..m
        }
    }
}

/// A raw release edge: a hold under the threshold with no long press
/// fired emits `Short`, and `Release` is always emitted last; ignored
/// while the key is already up.
pub open spec fn kp_up(m: KeypadModel, key: InputKey, t: u32) -> KeypadModel {
    let s = m.keys[key.index()];
    if !s.pressed {
        m
    } else {
        let short = sat_sub(t as int, s.press_time as int) < 300 && !s.long_press_fired;
        let q1 = if short {
            kp_enqueue(m.queue, InputEvent { key, event_type: InputType::Short })
        } else {
            m.queue
        };
        KeypadModel {
            keys: m.keys.update(key.index(), KeyState { pressed: false, ..s }),
            queue: kp_enqueue(q1, InputEvent { key, event_type: InputType::Release }),
            ..m
        }
    }
}

/// The clock tick for one key: long press once past the threshold (which
/// also opens the repeat window), then a repeat every interval.
pub open spec fn kp_tick_key(s: KeyState, now: u32) -> (KeyState, Option<InputType>) {
    if s.pressed && !s.long_press_fired && sat_sub(now as int, s.press_time as int) >= 300 {
        (KeyState { long_press_fired: true, last_repeat_time: now, ..s }, Some(InputType::Long))
    } else if s.pressed && s.long_press_fired && sat_sub(now as int, s.last_repeat_time as int)
        >= 150 {
        (KeyState { last_repeat_time: now, ..s }, Some(InputType::Repeat))
    } else {
        (s, None)
    }
}

/// The clock tick applied to keys below `k`, in key order.
pub open spec fn kp_tick_upto(m: KeypadModel, now: u32, k: int) -> KeypadModel
    decreases k,
{
    if k <= 0 {
        m
    } else {
        let prev = kp_tick_upto(m, now, k - 1);
        let (s2, emit) = kp_tick_key(prev.keys[k - 1], now);
        KeypadModel {
            keys: prev.keys.update(k - 1, s2),
            queue: match emit {
                Some(kind) => kp_enqueue(
                    prev.queue,
                    InputEvent { key: InputKey::from_index_spec(k - 1), event_type: kind },
                ),
                None => prev.queue,
            },
            ..prev
        }
    }
}

/// The reset-combo watcher of the embedded manager.
pub open spec fn kp_combo(m: KeypadModel, now: u32) -> KeypadModel {
    let left = m.keys[2].pressed;
    let back = m.keys[5].pressed;
    if left && back {
        match m.reset_start {
            Some(start) => {
                if sat_sub(now as int, start as int) >= 500 {
                    KeypadModel { reset_start: None, reset_pending: true, ..m }
                } else {
                    m
                }
            },
            None => KeypadModel { reset_start: Some(now), ..m },
        }
    } else {
        KeypadModel { reset_start: None, ..m }
    }
}

/// One frame update: the per-key tick, then the combo watcher.
pub open spec fn kp_update(m: KeypadModel, now: u32) -> KeypadModel {
    kp_combo(kp_tick_upto(m, now, 6), now)
}

/// A well-formed model: six keys and a bounded queue.
pub open spec fn kp_wf(m: KeypadModel) -> bool {
    m.keys.len() == 6 && m.queue.len() <= 16
}

/// The embedded input manager.
pub struct InputManager {
    key_states: Vec<KeyState>,
    queue: Vec<InputEvent>,
    reset_start_time: Option<u32>,
    reset_pending: bool,
}

impl View for InputManager {
    type V = KeypadModel;

    closed spec fn view(&self) -> KeypadModel {
        KeypadModel {
            keys: self.key_states@,
            queue: self.queue@,
            reset_start: self.reset_start_time,
            reset_pending: self.reset_pending,
        }
    }
}

impl InputManager {
    /// Six key slots, at most sixteen queued events.
    pub open spec fn wf(&self) -> bool {
        kp_wf(self@)
    }

    /// A fresh manager: all keys idle, empty queue, no combo window.
    pub fn new() -> (r: InputManager)
        ensures
            r.wf(),
            r@.queue.len() == 0,
            forall|i: int| 0 <= i < 6 ==> !r@.keys[i].pressed,
            r@.reset_start is None,
            !r@.reset_pending,
    {
        let idle = KeyState {
            pressed: false,
            press_time: 0,
            long_press_fired: false,
            last_repeat_time: 0,
        };
        let mut key_states: Vec<KeyState> = Vec::new();
        let mut i: usize = 0;
        while i < KEY_COUNT
            invariant
                i <= 6,
                key_states@.len() == i,
                forall|j: int| 0 <= j < i ==> key_states@[j] == idle,
                !idle.pressed,
            decreases 6 - i,
        {
            key_states.push(idle);
            i = i + 1;
        }
        InputManager { key_states, queue: Vec::new(), reset_start_time: None, reset_pending: false }
    }

    /// Append to the queue, dropping the event when it is full.
    fn push_event(&mut self, event: InputEvent)
        requires
            old(self).wf(),
        ensures
            final(self).wf(),
            final(self)@ == (KeypadModel { queue: kp_enqueue(old(self)@.queue, event), ..old(self)@ }),
    {
        if self.queue.len() < EVENT_QUEUE_CAP {
            self.queue.push(event);
        }
        proof {
            assert(final(self)@ =~= KeypadModel {
                queue: kp_enqueue(old(self)@.queue, event),
                ..old(self)@
            });
        }
    }

    /// Report a raw key press.
    pub fn key_down(&mut self, key: InputKey, time_ms: u32)
        requires
            old(self).wf(),
        ensures
            final(self).wf(),
            final(self)@ == kp_down(old(self)@, key, time_ms),
    {
        let idx = key.as_index();
        if !self.key_states[idx].pressed {
            self.key_states.set(
                idx,
                KeyState {
                    pressed: true,
                    press_time: time_ms,
                    long_press_fired: false,
                    last_repeat_time: time_ms,
                },
            );
            self.push_event(InputEvent { key, event_type: InputType::Press });
        }
        proof {
            assert(final(self)@ =~= kp_down(old(self)@, key, time_ms));
        }
    }

    /// Report a raw key release.
    pub fn key_up(&mut self, key: InputKey, time_ms: u32)
        requires
            old(self).wf(),
        ensures
            final(self).wf(),
            final(self)@ == kp_up(old(self)@, key, time_ms),
    {
        let idx = key.as_index();
        let s = self.key_states[idx];
        if s.pressed {
            self.key_states.set(idx, KeyState { pressed: false, ..s });
            let duration = if time_ms >= s.press_time {
                time_ms - s.press_time
            } else {
                0
            };
            if duration < SHORT_PRESS_MAX_MS && !s.long_press_fired {
                self.push_event(InputEvent { key, event_type: InputType::Short });
            }
            self.push_event(InputEvent { key, event_type: InputType::Release });
        }
        proof {
            assert(final(self)@ =~= kp_up(old(self)@, key, time_ms));
        }
    }

    /// Per-frame update: synthesize long presses and repeats, then watch
    /// the reset combo.
    pub fn update(&mut self, time_ms: u32)
        requires
            old(self).wf(),
        ensures
            final(self).wf(),
            final(self)@ == kp_update(old(self)@, time_ms),
    {
        let mut i: usize = 0;
        while i < KEY_COUNT
            invariant
                self.wf(),
                i <= 6,
                self@ == kp_tick_upto(old(self)@, time_ms, i as int),
            decreases 6 - i,
        {
            let s = self.key_states[i];
            let held = if time_ms >= s.press_time {
                time_ms - s.press_time
            } else {
                0
            };
            let since_repeat = if time_ms >= s.last_repeat_time {
                time_ms - s.last_repeat_time
            } else {
                0
            };
            if s.pressed && !s.long_press_fired && held >= LONG_PRESS_MS {
                self.key_states.set(
                    i,
                    KeyState { long_press_fired: true, last_repeat_time: time_ms, ..s },
                );
                self.push_event(
                    InputEvent { key: InputKey::from_index(i), event_type: InputType::Long },
                );
            } else if s.pressed && s.long_press_fired && since_repeat >= REPEAT_RATE_MS {
                self.key_states.set(i, KeyState { last_repeat_time: time_ms, ..s });
                self.push_event(
                    InputEvent { key: InputKey::from_index(i), event_type: InputType::Repeat },
                );
            } else {
                proof {
                    assert(self.key_states@ =~= self.key_states@.update(i as int, s));
                }
            }
            proof {
                assert(self@ =~= kp_tick_upto(old(self)@, time_ms, i as int + 1));
            }
            i = i + 1;
        }

        let left_pressed = self.key_states[2].pressed;
        let back_pressed = self.key_states[5].pressed;
        if left_pressed && back_pressed {
            match self.reset_start_time {
                Some(start) => {
                    let waited = if time_ms >= start {
                        time_ms - start
                    } else {
                        0
                    };
                    if waited >= RESET_COMBO_MS {
                        self.reset_pending = true;
                        self.reset_start_time = None;
                    }
                },
                None => {
                    self.reset_start_time = Some(time_ms);
                },
            }
        } else {
            self.reset_start_time = None;
        }
        proof {
            assert(final(self)@ =~= kp_update(old(self)@, time_ms));
        }
    }

    /// Take the oldest queued event.
    pub fn poll_event(&mut self) -> (r: Option<InputEvent>)
        requires
            old(self).wf(),
        ensures
            final(self).wf(),
            old(self)@.queue.len() == 0 ==> r is None && final(self)@ == old(self)@,
            old(self)@.queue.len() > 0 ==> r == Some(old(self)@.queue[0]) && final(self)@
                == (KeypadModel { queue: old(self)@.queue.skip(1), ..old(self)@ }),
    {
        if self.queue.len() == 0 {
            proof {
                assert(final(self)@ =~= old(self)@);
            }
            return None;
        }
        let e = self.queue.remove(0);
        proof {
            assert(final(self)@ =~= KeypadModel { queue: old(self)@.queue.skip(1), ..old(self)@ });
        }
        Some(e)
    }

    /// Whether a key is currently held.
    pub fn is_pressed(&self, key: InputKey) -> (r: bool)
        requires
            self.wf(),
        ensures
            r == self@.keys[key.index()].pressed,
    {
        self.key_states[key.as_index()].pressed
    }

    /// Whether the reset combo fired since the last take, clearing the mark.
    pub fn take_reset_request(&mut self) -> (r: bool)
        ensures
            r == old(self)@.reset_pending,
            final(self)@ == (KeypadModel { reset_pending: false, ..old(self)@ }),
    {
        let r = self.reset_pending;
        self.reset_pending = false;
        proof {
            assert(final(self)@ =~= KeypadModel { reset_pending: false, ..old(self)@ });
        }
        r
    }
}

} // verus!
