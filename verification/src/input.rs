//! The input processor: consumes raw press/release edges, keeps a per-key
//! state machine, and synthesizes short-press, long-press and auto-repeat
//! events into a bounded FIFO queue. Also watches for the Left+Back reset
//! combo. Every transition is specified by a model-level step function.

use std::collections::VecDeque;

use vstd::prelude::*;

use crate::types::InputKey;
use crate::types::InputType;
use crate::types::KEY_COUNT;

verus! {

/// Hold time at which a press becomes a long press.
pub const INPUT_LONG_PRESS_MS: u32 = 300;

/// Hold time at which auto-repeat starts (the long-press threshold).
pub const INPUT_REPEAT_START_MS: u32 = 300;

/// Interval between auto-repeat events.
pub const INPUT_REPEAT_INTERVAL_MS: u32 = 150;

/// Hold time of Left+Back that triggers the reset combo.
pub const INPUT_RESET_COMBO_MS: u32 = 500;

/// Capacity of the synthesized event queue.
pub const INPUT_EVENT_QUEUE_SIZE: usize = 16;

/// A synthesized or raw input event.
#[derive(Clone, Copy, PartialEq, Eq, Structural, Debug)]
pub struct InputEvent {
    pub key: InputKey,
    pub kind: InputType,
}

/// A source of raw input edges, implemented by each host port.
pub trait InputBackend {
    /// Sample the hardware.
    fn poll(&mut self);

    /// Whether a raw event is waiting.
    fn has_event(&self) -> bool;

    /// Take the next raw event.
    fn next_event(&mut self) -> Option<InputEvent>;
}

/// Per-key press-tracking state.
#[derive(Clone, Copy, PartialEq, Eq, Structural, Debug)]
pub struct KeyState {
    pub pressed: bool,
    pub press_time: u32,
    pub long_press_fired: bool,
    pub last_repeat_time: u32,
}

/// The mathematical state of the input processor.
pub struct InputModel {
    /// One state per key, indexed by `InputKey::index`.
    pub keys: Seq<KeyState>,
    /// The synthesized event queue, oldest first.
    pub queue: Seq<InputEvent>,
    /// Whether the Left+Back combo window is open.
    pub combo_active: bool,
    /// When the combo window opened.
    pub combo_start: u32,
    /// Whether a reset fired and has not yet been taken.
    pub reset_pending: bool,
}

/// Saturating subtraction on clock values.
pub open spec fn sat_sub(a: int, b: int) -> int {
    if a >= b {
        a - b
    } else {
        0
    }
}

/// Append to the queue, dropping the event when the queue is full.
pub open spec fn enqueue(q: Seq<InputEvent>, e: InputEvent) -> Seq<InputEvent> {
    if q.len() >= 16 {
        q
    } else {
        q.push(e)
    }
}

/// A raw press edge: record the press and emit `Press`.
pub open spec fn press_step(m: InputModel, key: InputKey, t: u32) -> InputModel {
    InputModel {
        keys: m.keys.update(
            key.index(),
            KeyState { pressed: true, press_time: t, long_press_fired: false, last_repeat_time: t },
        ),
        queue: enqueue(m.queue, InputEvent { key, kind: InputType::Press }),
        ..m
    }
}

/// A raw release edge: a short hold that never fired long emits
/// `ShortPress`; a hold past the threshold that never fired long emits
/// `LongPress`; `Release` is always emitted last.
pub open spec fn release_step(m: InputModel, key: InputKey, t: u32) -> InputModel {
    let s = m.keys[key.index()];
    let hold = sat_sub(t as int, s.press_time as int);
    let queue_long = s.pressed && !s.long_press_fired && hold >= 300;
    let queue_short = s.pressed && !s.long_press_fired && hold < 300;
    let q1 = if queue_long {
        enqueue(m.queue, InputEvent { key, kind: InputType::LongPress })
    } else if queue_short {
        enqueue(m.queue, InputEvent { key, kind: InputType::ShortPress })
    } else {
        m.queue
    };
    InputModel {
        keys: if s.pressed {
            m.keys.update(key.index(), KeyState { pressed: false, ..s })
        } else {
            m.keys
        },
        queue: enqueue(q1, InputEvent { key, kind: InputType::Release }),
        ..m
    }
}

/// One raw edge; synthesized kinds arriving as raw input are ignored.
pub open spec fn raw_step(m: InputModel, ev: InputEvent, t: u32) -> InputModel {
    match ev.kind {
        InputType::Press => press_step(m, ev.key, t),
        InputType::Release => release_step(m, ev.key, t),
        _ => m,
    }
}

/// All raw edges of one update, oldest first.
pub open spec fn raw_steps(m: InputModel, evs: Seq<InputEvent>, t: u32) -> InputModel
    decreases evs.len(),
{
    if evs.len() == 0 {
        m
    } else {
        raw_steps(raw_step(m, evs[0], t), evs.skip(1), t)
    }
}

/// The clock tick for one key: a held key past the threshold fires
/// `LongPress` once and opens the repeat window; a held key with long
/// already fired repeats every interval.
pub open spec fn tick_key(s: KeyState, now: u32) -> (KeyState, Option<InputType>) {
    if s.pressed && !s.long_press_fired && sat_sub(now as int, s.press_time as int) >= 300 {
        (KeyState { long_press_fired: true, last_repeat_time: now, ..s }, Some(
            InputType::LongPress,
        ))
    } else if s.pressed && s.long_press_fired && sat_sub(now as int, s.last_repeat_time as int)
        >= 150 {
        (KeyState { last_repeat_time: now, ..s }, Some(InputType::Repeat))
    } else {
        (s, None)
    }
}

/// The clock tick applied to keys below `k`, in key order.
pub open spec fn tick_upto(m: InputModel, now: u32, k: int) -> InputModel
    decreases k,
{
    if k <= 0 {
        m
    } else {
        let prev = tick_upto(m, now, k - 1);
        let (s2, emit) = tick_key(prev.keys[k - 1], now);
        InputModel {
            keys: prev.keys.update(k - 1, s2),
            queue: match emit {
                Some(kind) => enqueue(
                    prev.queue,
                    InputEvent { key: InputKey::from_index_spec(k - 1), kind },
                ),
                None => prev.queue,
            },
            ..prev
        }
    }
}

/// The reset-combo watcher: Left and Back held together open a window;
/// holding through the window fires the reset once and closes it;
/// releasing either key closes it.
pub open spec fn combo_step(m: InputModel, now: u32) -> InputModel {
    let left = m.keys[2].pressed;
    let back = m.keys[5].pressed;
    if left && back {
        if !m.combo_active {
            InputModel { combo_active: true, combo_start: now, ..m }
        } else if sat_sub(now as int, m.combo_start as int) >= 500 {
            InputModel { combo_active: false, combo_start: 0, reset_pending: true, ..m }
        } else {
            m
        }
    } else {
        InputModel { combo_active: false, combo_start: 0, ..m }
    }
}

/// One full update: raw edges, then the per-key tick, then the combo.
pub open spec fn update_spec(m: InputModel, evs: Seq<InputEvent>, t: u32) -> InputModel {
    combo_step(tick_upto(raw_steps(m, evs, t), t, 6), t)
}

/// A well-formed model: six keys and a bounded queue.
pub open spec fn model_wf(m: InputModel) -> bool {
    m.keys.len() == 6 && m.queue.len() <= 16
}

} // verus!

verus! {

impl InputKey {
    /// Key for a state-table index (indices above 5 give `Back`).
    pub open spec fn from_index_spec(i: int) -> InputKey {
        if i == 0 {
            InputKey::Up
        } else if i == 1 {
            InputKey::Down
        } else if i == 2 {
            InputKey::Left
        } else if i == 3 {
            InputKey::Right
        } else if i == 4 {
            InputKey::Okay
        } else {
            InputKey::Back
        }
    }
}

/// The input processor.
pub struct InputManager {
    key_states: Vec<KeyState>,
    queue: VecDeque<InputEvent>,
    combo_start_time: u32,
    combo_active: bool,
    reset_pending: bool,
}

impl View for InputManager {
    type V = InputModel;

    closed spec fn view(&self) -> InputModel {
        InputModel {
            keys: self.key_states@,
            queue: self.queue@,
            combo_active: self.combo_active,
            combo_start: self.combo_start_time,
            reset_pending: self.reset_pending,
        }
    }
}

impl InputManager {
    /// The processor always holds six key slots and at most sixteen queued
    /// events.
    pub open spec fn wf(&self) -> bool {
        model_wf(self@)
    }

    /// A fresh processor: all keys idle, empty queue, no combo window.
    pub fn new() -> (r: InputManager)
        ensures
            r.wf(),
            r@.queue.len() == 0,
            r@.keys.len() == 6,
            forall|i: int| 0 <= i < 6 ==> !r@.keys[i].pressed,
            !r@.combo_active,
            !r@.reset_pending,
    {
        let idle = KeyState {
            pressed: false,
            press_time: 0,
            long_press_fired: false,
            last_repeat_time: 0,
        };
        let mut key_states: Vec<KeyState> = Vec::new();
        let mut i: usize = 0;
        while i < KEY_COUNT
            invariant
                i <= 6,
                key_states@.len() == i,
                forall|j: int| 0 <= j < i ==> key_states@[j] == idle,
                !idle.pressed,
            decreases 6 - i,
        {
            key_states.push(idle);
            i = i + 1;
        }
        InputManager {
            key_states,
            queue: VecDeque::new(),
            combo_start_time: 0,
            combo_active: false,
            reset_pending: false,
        }
    }

    /// Append to the queue, dropping the event when the queue is full.
    fn queue_event(&mut self, key: InputKey, kind: InputType)
        requires
            old(self).wf(),
        ensures
            final(self).wf(),
            final(self)@ == (InputModel { queue: enqueue(old(self)@.queue, InputEvent { key, kind }), ..old(self)@ }),
    {
        if self.queue.len() >= INPUT_EVENT_QUEUE_SIZE {
            proof {
                assert(final(self)@ =~= InputModel {
                    queue: enqueue(old(self)@.queue, InputEvent { key, kind }),
                    ..old(self)@
                });
            }
            return ;
        }
        self.queue.push_back(InputEvent { key, kind });
        proof {
            assert(final(self)@ =~= InputModel {
                queue: enqueue(old(self)@.queue, InputEvent { key, kind }),
                ..old(self)@
            });
        }
    }

    /// Process one raw edge at the given time.
    fn handle_raw(&mut self, ev: InputEvent, time_ms: u32)
        requires
            old(self).wf(),
        ensures
            final(self).wf(),
            final(self)@ == raw_step(old(self)@, ev, time_ms),
    {
        let key_index = ev.key.as_index();
        match ev.kind {
            InputType::Press => {
                self.key_states.set(
                    key_index,
                    KeyState {
                        pressed: true,
                        press_time: time_ms,
                        long_press_fired: false,
                        last_repeat_time: time_ms,
                    },
                );
                self.queue_event(ev.key, InputType::Press);
                proof {
                    assert(final(self)@ =~= raw_step(old(self)@, ev, time_ms));
                }
            },
            InputType::Release => {
                let s = self.key_states[key_index];
                if s.pressed {
                    let hold = if time_ms >= s.press_time {
                        time_ms - s.press_time
                    } else {
                        0
                    };
                    let queue_long = !s.long_press_fired && hold >= INPUT_LONG_PRESS_MS;
                    let queue_short = !s.long_press_fired && hold < INPUT_LONG_PRESS_MS;
                    self.key_states.set(key_index, KeyState { pressed: false, ..s });
                    if queue_long {
                        self.queue_event(ev.key, InputType::LongPress);
                    } else if queue_short {
                        self.queue_event(ev.key, InputType::ShortPress);
                    }
                }
                self.queue_event(ev.key, InputType::Release);
                proof {
                    assert(final(self)@ =~= raw_step(old(self)@, ev, time_ms));
                }
            },
            _ => {},
        }
    }

    /// Run the per-key long-press and repeat synthesis for this tick.
    fn tick(&mut self, time_ms: u32)
        requires
            old(self).wf(),
        ensures
            final(self).wf(),
            final(self)@ == tick_upto(old(self)@, time_ms, 6),
    {
        let mut i: usize = 0;
        while i < KEY_COUNT
            invariant
                self.wf(),
                i <= 6,
                self@ == tick_upto(old(self)@, time_ms, i as int),
            decreases 6 - i,
        {
            let s = self.key_states[i];
            let held = if time_ms >= s.press_time {
                time_ms - s.press_time
            } else {
                0
            };
            let since_repeat = if time_ms >= s.last_repeat_time {
                time_ms - s.last_repeat_time
            } else {
                0
            };
            if s.pressed && !s.long_press_fired && held >= INPUT_LONG_PRESS_MS {
                self.key_states.set(
                    i,
                    KeyState { long_press_fired: true, last_repeat_time: time_ms, ..s },
                );
                self.queue_event(InputKey::from_index(i), InputType::LongPress);
            } else if s.pressed && s.long_press_fired && since_repeat
                >= INPUT_REPEAT_INTERVAL_MS {
                self.key_states.set(i, KeyState { last_repeat_time: time_ms, ..s });
                self.queue_event(InputKey::from_index(i), InputType::Repeat);
            } else {
                proof {
                    assert(self.key_states@ =~= self.key_states@.update(i as int, s));
                }
            }
            proof {
                assert(self@ =~= tick_upto(old(self)@, time_ms, i as int + 1));
            }
            i = i + 1;
        }
    }

    /// Watch the Left+Back combo; a full window marks a pending reset.
    fn check_reset_combo(&mut self, time_ms: u32)
        requires
            old(self).wf(),
        ensures
            final(self).wf(),
            final(self)@ == combo_step(old(self)@, time_ms),
    {
        let left_held = self.key_states[2].pressed;
        let back_held = self.key_states[5].pressed;
        if left_held && back_held {
            if !self.combo_active {
                self.combo_active = true;
                self.combo_start_time = time_ms;
            } else {
                let waited = if time_ms >= self.combo_start_time {
                    time_ms - self.combo_start_time
                } else {
                    0
                };
                if waited >= INPUT_RESET_COMBO_MS {
                    self.reset_pending = true;
                    self.combo_active = false;
                    self.combo_start_time = 0;
                }
            }
        } else {
            self.combo_active = false;
            self.combo_start_time = 0;
        }
    }

    /// One frame update: drain the raw edges, synthesize long presses and
    /// repeats, then watch the reset combo.
    pub fn update(&mut self, raw_events: &Vec<InputEvent>, time_ms: u32)
        requires
            old(self).wf(),
        ensures
            final(self).wf(),
            final(self)@ == update_spec(old(self)@, raw_events@, time_ms),
    {
        let n = raw_events.len();
        let mut i: usize = 0;
        proof {
            assert(raw_events@.skip(0) =~= raw_events@);
        }
        while i < n
            invariant
                self.wf(),
                i <= n,
                n == raw_events@.len(),
                raw_steps(self@, raw_events@.skip(i as int), time_ms) == raw_steps(
                    old(self)@,
                    raw_events@,
                    time_ms,
                ),
            decreases n - i,
        {
            proof {
                assert(raw_events@.skip(i as int)[0] == raw_events@[i as int]);
                assert(raw_events@.skip(i as int).skip(1) =~= raw_events@.skip(i as int + 1));
            }
            self.handle_raw(raw_events[i], time_ms);
            i = i + 1;
        }
        proof {
            assert(raw_events@.skip(n as int) =~= Seq::<InputEvent>::empty());
        }
        self.tick(time_ms);
        self.check_reset_combo(time_ms);
    }

    /// Whether a synthesized event is waiting.
    pub fn has_event(&self) -> (r: bool)
        ensures
            r == (self@.queue.len() > 0),
    {
        self.queue.len() > 0
    }

    /// Take the oldest synthesized event.
    pub fn next_event(&mut self) -> (r: Option<InputEvent>)
        requires
            old(self).wf(),
        ensures
            final(self).wf(),
            old(self)@.queue.len() == 0 ==> r is None && final(self)@ == old(self)@,
            old(self)@.queue.len() > 0 ==> r == Some(old(self)@.queue[0]) && final(self)@
                == (InputModel { queue: old(self)@.queue.skip(1), ..old(self)@ }),
    {
        let r = self.queue.pop_front();
        proof {
            if old(self)@.queue.len() == 0 {
                assert(final(self)@ =~= old(self)@);
            } else {
                assert(final(self)@ =~= InputModel {
                    queue: old(self)@.queue.skip(1),
                    ..old(self)@
                });
            }
        }
        r
    }

    /// Whether the reset combo fired since the last take, clearing the mark.
    pub fn take_reset_request(&mut self) -> (r: bool)
        ensures
            r == old(self)@.reset_pending,
            final(self)@ == (InputModel { reset_pending: false, ..old(self)@ }),
    {
        let r = self.reset_pending;
        self.reset_pending = false;
        proof {
            assert(final(self)@ =~= InputModel { reset_pending: false, ..old(self)@ });
        }
        r
    }
}

} // verus!

verus! {

/// The queue never exceeds its capacity, and below capacity no event is
/// lost: appending to a queue under capacity keeps every event.
pub proof fn lemma_queue_capacity(q: Seq<InputEvent>, e: InputEvent)
    requires
        q.len() <= 16,
    ensures
        enqueue(q, e).len() <= 16,
        q.len() < 16 ==> enqueue(q, e) == q.push(e),
{
}

/// A model in which exactly the key `k` is held, pressed at `t`, with long
/// press not yet fired, an empty queue apart from the initial press event,
/// and no combo window.
pub open spec fn single_hold(m: InputModel, k: InputKey, t: u32) -> bool {
    &&& m.keys.len() == 6
    &&& m.keys[k.index()].pressed
    &&& m.keys[k.index()].press_time == t
    &&& !m.keys[k.index()].long_press_fired
    &&& forall|i: int| 0 <= i < 6 && i != k.index() ==> !m.keys[i].pressed
    &&& !m.combo_active
    &&& m.combo_start == 0
}

/// A tick before the long-press threshold leaves a single-hold state
/// untouched: no long press, no repeat, nothing queued.
proof fn lemma_quiet_tick_upto(m: InputModel, k: InputKey, t: u32, now: u32, j: int)
    requires
        single_hold(m, k, t),
        sat_sub(now as int, t as int) < 300,
        0 <= j <= 6,
    ensures
        tick_upto(m, now, j) == m,
    decreases j,
{
    if j > 0 {
        lemma_quiet_tick_upto(m, k, t, now, j - 1);
        let s = m.keys[j - 1];
        assert(tick_key(s, now) == (s, Option::<InputType>::None));
        assert(m.keys.update(j - 1, s) =~= m.keys);
        assert(tick_upto(m, now, j) =~= m);
    }
}

/// A whole quiet update (no raw edges, clock still before the long-press
/// threshold) leaves a single-hold state untouched.
proof fn lemma_quiet_update(m: InputModel, k: InputKey, t: u32, now: u32)
    requires
        single_hold(m, k, t),
        sat_sub(now as int, t as int) < 300,
    ensures
        update_spec(m, Seq::<InputEvent>::empty(), now) == m,
{
    assert(raw_steps(m, Seq::<InputEvent>::empty(), now) == m);
    lemma_quiet_tick_upto(m, k, t, now, 6);
    assert(combo_step(m, now) =~= m);
}

/// The quiet updates folded over any sequence of tick times.
pub open spec fn run_quiet_updates(m: InputModel, ticks: Seq<u32>) -> InputModel
    decreases ticks.len(),
{
    if ticks.len() == 0 {
        m
    } else {
        run_quiet_updates(update_spec(m, Seq::<InputEvent>::empty(), ticks[0]), ticks.skip(1))
    }
}

/// A raw `Press(t)` then `Release(t2)` with a hold shorter than the
/// long-press threshold yields exactly `Press`, `ShortPress`, `Release`
/// for that key — and no `LongPress` or `Repeat` — however many update
/// ticks run in between, provided every tick happens before the threshold.
pub proof fn lemma_short_press_sequence(
    m0: InputModel,
    k: InputKey,
    t: u32,
    ticks: Seq<u32>,
    t2: u32,
)
    requires
        m0.keys.len() == 6,
        m0.queue.len() == 0,
        forall|i: int| 0 <= i < 6 ==> !m0.keys[i].pressed,
        !m0.combo_active,
        m0.combo_start == 0,
        sat_sub(t2 as int, t as int) < 300,
        forall|i: int| 0 <= i < ticks.len() ==> sat_sub(#[trigger] ticks[i] as int, t as int) < 300,
    ensures
        ({
            let m1 = update_spec(m0, seq![InputEvent { key: k, kind: InputType::Press }], t);
            let m2 = run_quiet_updates(m1, ticks);
            let m3 = update_spec(m2, seq![InputEvent { key: k, kind: InputType::Release }], t2);
            m3.queue =~= seq![
                InputEvent { key: k, kind: InputType::Press },
                InputEvent { key: k, kind: InputType::ShortPress },
                InputEvent { key: k, kind: InputType::Release },
            ]
        }),
    decreases ticks.len(),
{
    let press = InputEvent { key: k, kind: InputType::Press };
    let pressed_state = KeyState {
        pressed: true,
        press_time: t,
        long_press_fired: false,
        last_repeat_time: t,
    };
    let evs1 = seq![press];
    assert(evs1.skip(1) =~= Seq::<InputEvent>::empty());
    assert(evs1[0] == press);
    let ma = press_step(m0, k, t);
    assert(raw_steps(ma, Seq::<InputEvent>::empty(), t) == ma);
    assert(raw_steps(m0, evs1, t) == ma);
    assert(ma.queue =~= seq![press]);
    assert(single_hold(ma, k, t));
    lemma_quiet_tick_upto(ma, k, t, t, 6);
    assert(combo_step(ma, t) =~= ma);
    let m1 = update_spec(m0, evs1, t);
    assert(m1 == ma);

    let m2 = run_quiet_updates(m1, ticks);
    lemma_quiet_run(m1, k, t, ticks);
    assert(m2 == m1);

    let rel = InputEvent { key: k, kind: InputType::Release };
    let evs2 = seq![rel];
    assert(evs2.skip(1) =~= Seq::<InputEvent>::empty());
    assert(evs2[0] == rel);
    let mb = release_step(m2, k, t2);
    assert(raw_steps(mb, Seq::<InputEvent>::empty(), t2) == mb);
    assert(raw_steps(m2, evs2, t2) == mb);
    assert(mb.queue =~= seq![
        press,
        InputEvent { key: k, kind: InputType::ShortPress },
        rel,
    ]);
    assert(forall|i: int| 0 <= i < 6 ==> !mb.keys[i].pressed);
    lemma_released_tick_upto(mb, t2, 6);
    assert(combo_step(mb, t2) =~= mb);
    let m3 = update_spec(m2, evs2, t2);
    assert(m3 == mb);
}

/// Folded quiet updates leave a single-hold state untouched.
proof fn lemma_quiet_run(m: InputModel, k: InputKey, t: u32, ticks: Seq<u32>)
    requires
        single_hold(m, k, t),
        forall|i: int| 0 <= i < ticks.len() ==> sat_sub(#[trigger] ticks[i] as int, t as int) < 300,
    ensures
        run_quiet_updates(m, ticks) == m,
    decreases ticks.len(),
{
    if ticks.len() > 0 {
        lemma_quiet_update(m, k, t, ticks[0]);
        assert(forall|i: int|
            0 <= i < ticks.skip(1).len() ==> sat_sub(#[trigger] ticks.skip(1)[i] as int, t as int)
                < 300);
        lemma_quiet_run(m, k, t, ticks.skip(1));
    }
}

/// A tick over all-released keys emits nothing and changes nothing.
proof fn lemma_released_tick_upto(m: InputModel, now: u32, j: int)
    requires
        m.keys.len() == 6,
        forall|i: int| 0 <= i < 6 ==> !m.keys[i].pressed,
        0 <= j <= 6,
    ensures
        tick_upto(m, now, j) == m,
    decreases j,
{
    if j > 0 {
        lemma_released_tick_upto(m, now, j - 1);
        let s = m.keys[j - 1];
        assert(tick_key(s, now) == (s, Option::<InputType>::None));
        assert(m.keys.update(j - 1, s) =~= m.keys);
        assert(tick_upto(m, now, j) =~= m);
    }
}

} // verus!

verus! {

/// A raw edge emits at most two events.
proof fn lemma_raw_step_emission(m: InputModel, ev: InputEvent, t: u32)
    ensures
        raw_step(m, ev, t).queue.len() <= m.queue.len() + 2,
        raw_step(m, ev, t).queue.len() <= 16 || raw_step(m, ev, t).queue.len() <= m.queue.len(),
{
}

/// A sequence of raw edges emits at most two events each.
proof fn lemma_raw_steps_emission(m: InputModel, evs: Seq<InputEvent>, t: u32)
    requires
        m.queue.len() <= 16,
    ensures
        raw_steps(m, evs, t).queue.len() <= m.queue.len() + 2 * evs.len(),
        raw_steps(m, evs, t).queue.len() <= 16,
    decreases evs.len(),
{
    if evs.len() > 0 {
        lemma_raw_step_emission(m, evs[0], t);
        lemma_raw_steps_emission(raw_step(m, evs[0], t), evs.skip(1), t);
    }
}

/// One tick emits at most one event per key.
proof fn lemma_tick_emission(m: InputModel, now: u32, k: int)
    requires
        0 <= k <= 6,
        m.queue.len() <= 16,
    ensures
        tick_upto(m, now, k).queue.len() <= m.queue.len() + k,
        tick_upto(m, now, k).queue.len() <= 16,
    decreases k,
{
    if k > 0 {
        lemma_tick_emission(m, now, k - 1);
    }
}

/// Bounded emission: one update emits at most two events per raw edge plus
/// one per key, and the queue never exceeds its sixteen-slot capacity;
/// events beyond the capacity are dropped, never reordered.
pub proof fn lemma_update_emission(m: InputModel, evs: Seq<InputEvent>, t: u32)
    requires
        model_wf(m),
    ensures
        update_spec(m, evs, t).queue.len() <= m.queue.len() + 2 * evs.len() + 6,
        update_spec(m, evs, t).queue.len() <= 16,
{
    lemma_raw_steps_emission(m, evs, t);
    lemma_tick_emission(raw_steps(m, evs, t), t, 6);
}

} // verus!
