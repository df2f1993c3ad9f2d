//! The headless replay driver's pure core: expanding a scripted input
//! timeline into raw press/release edges, synthesizing the event stream the
//! input processor would produce, and the stable orderings of both. The
//! surrounding driver performs the guest calls; everything here is a
//! function of the script alone.

use vstd::prelude::*;
use vstd::string::StringSliceAdditionalSpecFns;

use crate::input::sat_sub;
use crate::types::InputKey;
use crate::types::InputType;

verus! {

/// Default press duration for a scripted `short_press`.
pub const DEFAULT_SHORT_PRESS_MS: u32 = 10;

/// A raw edge on the expanded timeline.
#[derive(Clone, Copy, PartialEq, Eq, Structural, Debug)]
pub struct RawEvent {
    pub time_ms: u32,
    pub key: InputKey,
    pub kind: InputType,
}

/// A synthesized event on the replay timeline.
#[derive(Clone, Copy, PartialEq, Eq, Structural, Debug)]
pub struct TimedEvent {
    pub time_ms: u32,
    pub key: InputKey,
    pub kind: InputType,
}

/// One scripted input entry: a key name, an action name, a time, and an
/// optional press duration.
pub struct ScriptEvent {
    pub time_ms: u32,
    pub key: String,
    pub kind: String,
    pub duration_ms: Option<u32>,
}

/// A script entry the expansion rejects.
#[derive(Debug)]
pub enum ScriptError {
    /// The key name is not one of the six key names.
    UnknownKey(String),
    /// The action name is not one of the five action names.
    UnknownType(String),
}

/// The key named by a byte string.
pub open spec fn key_of_bytes(b: Seq<u8>) -> Option<InputKey> {
    if b == ("up").spec_bytes() {
        Some(InputKey::Up)
    } else if b == ("down").spec_bytes() {
        Some(InputKey::Down)
    } else if b == ("left").spec_bytes() {
        Some(InputKey::Left)
    } else if b == ("right").spec_bytes() {
        Some(InputKey::Right)
    } else if b == ("ok").spec_bytes() {
        Some(InputKey::Okay)
    } else if b == ("back").spec_bytes() {
        Some(InputKey::Back)
    } else {
        None
    }
}

/// Sort weight of a raw edge at equal times: presses first, releases next.
pub open spec fn raw_weight(kind: InputType) -> int {
    match kind {
        InputType::Press => 0,
        InputType::Release => 1,
        _ => 2,
    }
}

/// Sort weight of a synthesized event at equal times: the press first, the
/// synthesized kinds next, the release last.
pub open spec fn timed_weight(kind: InputType) -> int {
    match kind {
        InputType::Press => 0,
        InputType::LongPress => 1,
        InputType::ShortPress => 1,
        InputType::Repeat => 1,
        InputType::Release => 2,
    }
}

/// Ordering of raw edges by time, then weight, then key id.
pub open spec fn raw_le(a: RawEvent, b: RawEvent) -> bool {
    if a.time_ms != b.time_ms {
        a.time_ms < b.time_ms
    } else if raw_weight(a.kind) != raw_weight(b.kind) {
        raw_weight(a.kind) < raw_weight(b.kind)
    } else {
        a.key.index() <= b.key.index()
    }
}

/// Ordering of synthesized events by time, then weight, then key id.
pub open spec fn timed_le(a: TimedEvent, b: TimedEvent) -> bool {
    if a.time_ms != b.time_ms {
        a.time_ms < b.time_ms
    } else if timed_weight(a.kind) != timed_weight(b.kind) {
        timed_weight(a.kind) < timed_weight(b.kind)
    } else {
        a.key.index() <= b.key.index()
    }
}

/// Stable insertion of a raw edge: the new element lands after every
/// element it does not strictly precede.
pub open spec fn raw_insert(x: RawEvent, s: Seq<RawEvent>) -> Seq<RawEvent>
    decreases s.len(),
{
    if s.len() == 0 {
        seq![x]
    } else if raw_le(s.last(), x) {
        s.push(x)
    } else {
        raw_insert(x, s.drop_last()).push(s.last())
    }
}

/// The stable sort of raw edges: left-to-right insertion.
pub open spec fn raw_sort(s: Seq<RawEvent>) -> Seq<RawEvent>
    decreases s.len(),
{
    if s.len() == 0 {
        Seq::empty()
    } else {
        raw_insert(s.last(), raw_sort(s.drop_last()))
    }
}

/// Stable insertion of a synthesized event.
pub open spec fn timed_insert(x: TimedEvent, s: Seq<TimedEvent>) -> Seq<TimedEvent>
    decreases s.len(),
{
    if s.len() == 0 {
        seq![x]
    } else if timed_le(s.last(), x) {
        s.push(x)
    } else {
        timed_insert(x, s.drop_last()).push(s.last())
    }
}

/// The stable sort of synthesized events.
pub open spec fn timed_sort(s: Seq<TimedEvent>) -> Seq<TimedEvent>
    decreases s.len(),
{
    if s.len() == 0 {
        Seq::empty()
    } else {
        timed_insert(s.last(), timed_sort(s.drop_last()))
    }
}

/// Compare two byte strings.
fn bytes_eq(a: &[u8], b: &[u8]) -> (r: bool)
    ensures
        r == (a@ == b@),
{
    if a.len() != b.len() {
        return false;
    }
    let n = a.len();
    let mut i: usize = 0;
    while i < n
        invariant
            i <= n,
            n == a@.len() == b@.len(),
            forall|j: int| 0 <= j < i ==> a@[j] == b@[j],
        decreases n - i,
    {
        if a[i] != b[i] {
            return false;
        }
        i = i + 1;
    }
    proof {
        assert(a@ =~= b@);
    }
    true
}

/// Parse a key name.
pub fn parse_key(value: &str) -> (r: Option<InputKey>)
    ensures
        r == key_of_bytes(value.spec_bytes()),
{
    let b = value.as_bytes();
    if bytes_eq(b, ("up").as_bytes()) {
        Some(InputKey::Up)
    } else if bytes_eq(b, ("down").as_bytes()) {
        Some(InputKey::Down)
    } else if bytes_eq(b, ("left").as_bytes()) {
        Some(InputKey::Left)
    } else if bytes_eq(b, ("right").as_bytes()) {
        Some(InputKey::Right)
    } else if bytes_eq(b, ("ok").as_bytes()) {
        Some(InputKey::Okay)
    } else if bytes_eq(b, ("back").as_bytes()) {
        Some(InputKey::Back)
    } else {
        None
    }
}

} // verus!

verus! {

/// Insert a raw edge into a vector at its stable position.
fn raw_insert_exec(out: &mut Vec<RawEvent>, x: RawEvent)
    ensures
        final(out)@ == raw_insert(x, old(out)@),
{
    let mut idx: usize = out.len();
    proof {
        assert(old(out)@.skip(idx as int) =~= Seq::<RawEvent>::empty());
        assert(old(out)@.take(idx as int) =~= old(out)@);
        assert(raw_insert(x, old(out)@) + Seq::<RawEvent>::empty() =~= raw_insert(x, old(out)@));
    }
    while idx > 0 && !raw_le_exec(out[idx - 1], x)
        invariant
            idx <= out@.len(),
            out@ == old(out)@,
            raw_insert(x, old(out)@) == raw_insert(x, old(out)@.take(idx as int)) + old(
                out,
            )@.skip(idx as int),
        decreases idx,
    {
        proof {
            let p = old(out)@.take(idx as int);
            assert(p.last() == old(out)@[idx as int - 1]);
            assert(p.drop_last() =~= old(out)@.take(idx as int - 1));
            assert(raw_insert(x, p) == raw_insert(x, old(out)@.take(idx as int - 1)).push(
                old(out)@[idx as int - 1],
            ));
            assert(raw_insert(x, old(out)@.take(idx as int - 1)).push(old(out)@[idx as int - 1])
                + old(out)@.skip(idx as int) =~= raw_insert(x, old(out)@.take(idx as int - 1))
                + old(out)@.skip(idx as int - 1));
        }
        idx = idx - 1;
    }
    proof {
        if idx > 0 {
            let p = old(out)@.take(idx as int);
            assert(p.last() == old(out)@[idx as int - 1]);
            assert(raw_insert(x, p) == p.push(x));
        } else {
            assert(old(out)@.take(0) =~= Seq::<RawEvent>::empty());
            assert(raw_insert(x, old(out)@.take(0)) == seq![x]);
        }
        assert(old(out)@.take(idx as int).push(x) + old(out)@.skip(idx as int)
            =~= old(out)@.insert(idx as int, x));
    }
    out.insert(idx, x);
}

/// Comparison of raw edges by time, then weight, then key id.
fn raw_le_exec(a: RawEvent, b: RawEvent) -> (r: bool)
    ensures
        r == raw_le(a, b),
{
    if a.time_ms != b.time_ms {
        a.time_ms < b.time_ms
    } else {
        let wa = raw_weight_exec(a.kind);
        let wb = raw_weight_exec(b.kind);
        if wa != wb {
            wa < wb
        } else {
            a.key.as_index() <= b.key.as_index()
        }
    }
}

/// Sort weight of a raw edge.
fn raw_weight_exec(kind: InputType) -> (r: u8)
    ensures
        r as int == raw_weight(kind),
{
    match kind {
        InputType::Press => 0,
        InputType::Release => 1,
        _ => 2,
    }
}

/// Stably sort raw edges by time, then weight (press before release), then
/// key id.
pub fn sort_raw_events(events: &mut Vec<RawEvent>)
    ensures
        final(events)@ == raw_sort(old(events)@),
{
    let n = events.len();
    let mut out: Vec<RawEvent> = Vec::new();
    let mut i: usize = 0;
    while i < n
        invariant
            i <= n,
            n == events@.len(),
            events@ == old(events)@,
            out@ == raw_sort(events@.take(i as int)),
        decreases n - i,
    {
        raw_insert_exec(&mut out, events[i]);
        proof {
            let p = events@.take(i as int + 1);
            assert(p.last() == events@[i as int]);
            assert(p.drop_last() =~= events@.take(i as int));
        }
        i = i + 1;
    }
    proof {
        assert(events@.take(n as int) =~= events@);
    }
    *events = out;
}

/// Insert a synthesized event into a vector at its stable position.
fn timed_insert_exec(out: &mut Vec<TimedEvent>, x: TimedEvent)
    ensures
        final(out)@ == timed_insert(x, old(out)@),
{
    let mut idx: usize = out.len();
    proof {
        assert(old(out)@.skip(idx as int) =~= Seq::<TimedEvent>::empty());
        assert(old(out)@.take(idx as int) =~= old(out)@);
        assert(timed_insert(x, old(out)@) + Seq::<TimedEvent>::empty() =~= timed_insert(
            x,
            old(out)@,
        ));
    }
    while idx > 0 && !timed_le_exec(out[idx - 1], x)
        invariant
            idx <= out@.len(),
            out@ == old(out)@,
            timed_insert(x, old(out)@) == timed_insert(x, old(out)@.take(idx as int)) + old(
                out,
            )@.skip(idx as int),
        decreases idx,
    {
        proof {
            let p = old(out)@.take(idx as int);
            assert(p.last() == old(out)@[idx as int - 1]);
            assert(p.drop_last() =~= old(out)@.take(idx as int - 1));
            assert(timed_insert(x, p) == timed_insert(x, old(out)@.take(idx as int - 1)).push(
                old(out)@[idx as int - 1],
            ));
            assert(timed_insert(x, old(out)@.take(idx as int - 1)).push(old(out)@[idx as int - 1])
                + old(out)@.skip(idx as int) =~= timed_insert(x, old(out)@.take(idx as int - 1))
                + old(out)@.skip(idx as int - 1));
        }
        idx = idx - 1;
    }
    proof {
        if idx > 0 {
            let p = old(out)@.take(idx as int);
            assert(p.last() == old(out)@[idx as int - 1]);
            assert(timed_insert(x, p) == p.push(x));
        } else {
            assert(old(out)@.take(0) =~= Seq::<TimedEvent>::empty());
            assert(timed_insert(x, old(out)@.take(0)) == seq![x]);
        }
        assert(old(out)@.take(idx as int).push(x) + old(out)@.skip(idx as int)
            =~= old(out)@.insert(idx as int, x));
    }
    out.insert(idx, x);
}

/// Comparison of synthesized events.
fn timed_le_exec(a: TimedEvent, b: TimedEvent) -> (r: bool)
    ensures
        r == timed_le(a, b),
{
    if a.time_ms != b.time_ms {
        a.time_ms < b.time_ms
    } else {
        let wa = timed_weight_exec(a.kind);
        let wb = timed_weight_exec(b.kind);
        if wa != wb {
            wa < wb
        } else {
            a.key.as_index() <= b.key.as_index()
        }
    }
}

/// Sort weight of a synthesized event.
fn timed_weight_exec(kind: InputType) -> (r: u8)
    ensures
        r as int == timed_weight(kind),
{
    match kind {
        InputType::Press => 0,
        InputType::LongPress => 1,
        InputType::ShortPress => 1,
        InputType::Repeat => 1,
        InputType::Release => 2,
    }
}

/// Stably sort synthesized events by time, then weight (press before the
/// synthesized kinds before release), then key id.
pub fn sort_timed_events(events: &mut Vec<TimedEvent>)
    ensures
        final(events)@ == timed_sort(old(events)@),
{
    let n = events.len();
    let mut out: Vec<TimedEvent> = Vec::new();
    let mut i: usize = 0;
    while i < n
        invariant
            i <= n,
            n == events@.len(),
            events@ == old(events)@,
            out@ == timed_sort(events@.take(i as int)),
        decreases n - i,
    {
        timed_insert_exec(&mut out, events[i]);
        proof {
            let p = events@.take(i as int + 1);
            assert(p.last() == events@[i as int]);
            assert(p.drop_last() =~= events@.take(i as int));
        }
        i = i + 1;
    }
    proof {
        assert(events@.take(n as int) =~= events@);
    }
    *events = out;
}

} // verus!

verus! {

/// Scripted action kinds.
#[derive(Clone, Copy, PartialEq, Eq, Structural, Debug)]
pub enum ScriptKind {
    Press,
    Release,
    ShortPress,
    LongPress,
    Repeat,
}

/// The action named by a byte string.
pub open spec fn kind_of_bytes(b: Seq<u8>) -> Option<ScriptKind> {
    if b == ("press").spec_bytes() {
        Some(ScriptKind::Press)
    } else if b == ("release").spec_bytes() {
        Some(ScriptKind::Release)
    } else if b == ("short_press").spec_bytes() {
        Some(ScriptKind::ShortPress)
    } else if b == ("long_press").spec_bytes() {
        Some(ScriptKind::LongPress)
    } else if b == ("repeat").spec_bytes() {
        Some(ScriptKind::Repeat)
    } else {
        None
    }
}

/// The spec-level form of a script entry.
pub struct ScriptView {
    pub time_ms: u32,
    pub key: Seq<u8>,
    pub kind: Seq<u8>,
    pub duration_ms: Option<u32>,
}

impl View for ScriptEvent {
    type V = ScriptView;

    open spec fn view(&self) -> ScriptView {
        ScriptView {
            time_ms: self.time_ms,
            key: vstd::utf8::encode_utf8(self.key@),
            kind: vstd::utf8::encode_utf8(self.kind@),
            duration_ms: self.duration_ms,
        }
    }
}

/// Addition on clock values, saturating at the top of the clock.
pub open spec fn sat_add(a: int, b: int) -> int {
    if a + b > 0xffff_ffff {
        0xffff_ffff
    } else {
        a + b
    }
}

/// Whether every entry of a script names a known key and action.
pub open spec fn script_ok(s: Seq<ScriptView>) -> bool {
    forall|i: int|
        0 <= i < s.len() ==> (#[trigger] key_of_bytes(s[i].key)) is Some && kind_of_bytes(s[i].kind)
            is Some
}

/// The raw edges of one valid script entry: a press or release passes
/// through; the composite actions become a press and a release separated by
/// the duration — defaulted to 10 and held under the long-press threshold
/// for a short press, clamped up to the threshold for a long press and to
/// threshold plus interval for a repeat.
pub open spec fn expand_entry(e: ScriptView) -> Seq<RawEvent> {
    let key = key_of_bytes(e.key)->Some_0;
    let given = match e.duration_ms {
        Some(d) => d as int,
        None => 0,
    };
    match kind_of_bytes(e.kind)->Some_0 {
        ScriptKind::Press => seq![
            RawEvent { time_ms: e.time_ms, key, kind: InputType::Press },
        ],
        ScriptKind::Release => seq![
            RawEvent { time_ms: e.time_ms, key, kind: InputType::Release },
        ],
        ScriptKind::ShortPress => {
            let dur = if given == 0 {
                10int
            } else if given >= 300 {
                299int
            } else {
                given
            };
            seq![
                RawEvent { time_ms: e.time_ms, key, kind: InputType::Press },
                RawEvent {
                    time_ms: sat_add(e.time_ms as int, dur) as u32,
                    key,
                    kind: InputType::Release,
                },
            ]
        },
        ScriptKind::LongPress => {
            let dur = if given < 300 {
                300int
            } else {
                given
            };
            seq![
                RawEvent { time_ms: e.time_ms, key, kind: InputType::Press },
                RawEvent {
                    time_ms: sat_add(e.time_ms as int, dur) as u32,
                    key,
                    kind: InputType::Release,
                },
            ]
        },
        ScriptKind::Repeat => {
            let dur = if given < 450 {
                450int
            } else {
                given
            };
            seq![
                RawEvent { time_ms: e.time_ms, key, kind: InputType::Press },
                RawEvent {
                    time_ms: sat_add(e.time_ms as int, dur) as u32,
                    key,
                    kind: InputType::Release,
                },
            ]
        },
    }
}

/// The raw edges of the script entries below `i`, in script order.
pub open spec fn expand_upto(s: Seq<ScriptView>, i: int) -> Seq<RawEvent>
    decreases i,
{
    if i <= 0 {
        Seq::empty()
    } else {
        expand_upto(s, i - 1) + expand_entry(s[i - 1])
    }
}

/// The full expansion: the edges of every entry, stably sorted whenever
/// there is more than one.
pub open spec fn expand_script(s: Seq<ScriptView>) -> Seq<RawEvent> {
    let evs = expand_upto(s, s.len() as int);
    if evs.len() > 1 {
        raw_sort(evs)
    } else {
        evs
    }
}

/// The index of the first invalid script entry.
pub open spec fn first_invalid(s: Seq<ScriptView>) -> int
    decreases s.len(),
{
    if s.len() == 0 {
        0
    } else if key_of_bytes(s[0].key) is None || kind_of_bytes(s[0].kind) is None {
        0
    } else {
        1 + first_invalid(s.skip(1))
    }
}

/// Expand a script into raw edges. Succeeds exactly when every entry names
/// a known key and action; the first offending entry's name is reported
/// otherwise.
pub fn expand_script_events(script: &Vec<ScriptEvent>) -> (r: Result<Vec<RawEvent>, ScriptError>)
    ensures
        r matches Ok(v) ==> script_ok(Seq::new(script@.len(), |i: int| script@[i]@)) && v@
            == expand_script(Seq::new(script@.len(), |i: int| script@[i]@)),
        r is Err ==> !script_ok(Seq::new(script@.len(), |i: int| script@[i]@)),
{
    let ghost sv = Seq::new(script@.len(), |i: int| script@[i]@);
    let mut raw_events: Vec<RawEvent> = Vec::new();
    let n = script.len();
    let mut i: usize = 0;

    while i < n
        invariant
            i <= n,
            n == script@.len(),
            sv == Seq::new(script@.len(), |j: int| script@[j]@),
            raw_events@ == expand_upto(sv, i as int),
            forall|j: int|
                0 <= j < i ==> (#[trigger] key_of_bytes(sv[j].key)) is Some && kind_of_bytes(
                    sv[j].kind,
                ) is Some,
        decreases n - i,
    {
        let event = &script[i];
        let key = match parse_key(event.key.as_str()) {
            Some(k) => k,
            None => {
                proof {
                    assert(sv[i as int] == script@[i as int]@);
                    assert(key_of_bytes(sv[i as int].key) is None);
                    assert(!script_ok(sv));
                }
                return Err(ScriptError::UnknownKey(event.key.clone()));
            },
        };
        let given: u32 = match event.duration_ms {
            Some(d) => d,
            None => 0,
        };
        let kb = event.kind.as_str().as_bytes();
        let t = event.time_ms;
        if bytes_eq(kb, ("press").as_bytes()) {
            raw_events.push(RawEvent { time_ms: t, key, kind: InputType::Press });
        } else if bytes_eq(kb, ("release").as_bytes()) {
            raw_events.push(RawEvent { time_ms: t, key, kind: InputType::Release });
        } else if bytes_eq(kb, ("short_press").as_bytes()) {
            let dur: u32 = if given == 0 {
                DEFAULT_SHORT_PRESS_MS
            } else if given >= 300 {
                299
            } else {
                given
            };
            let release: u32 = if t > 0xffff_ffff - dur {
                0xffff_ffff
            } else {
                t + dur
            };
            raw_events.push(RawEvent { time_ms: t, key, kind: InputType::Press });
            raw_events.push(RawEvent { time_ms: release, key, kind: InputType::Release });
        } else if bytes_eq(kb, ("long_press").as_bytes()) {
            let dur: u32 = if given < 300 {
                300
            } else {
                given
            };
            let release: u32 = if t > 0xffff_ffff - dur {
                0xffff_ffff
            } else {
                t + dur
            };
            raw_events.push(RawEvent { time_ms: t, key, kind: InputType::Press });
            raw_events.push(RawEvent { time_ms: release, key, kind: InputType::Release });
        } else if bytes_eq(kb, ("repeat").as_bytes()) {
            let dur: u32 = if given < 450 {
                450
            } else {
                given
            };
            let release: u32 = if t > 0xffff_ffff - dur {
                0xffff_ffff
            } else {
                t + dur
            };
            raw_events.push(RawEvent { time_ms: t, key, kind: InputType::Press });
            raw_events.push(RawEvent { time_ms: release, key, kind: InputType::Release });
        } else {
            proof {
                assert(sv[i as int] == script@[i as int]@);
                assert(kind_of_bytes(sv[i as int].kind) is None);
                assert(!script_ok(sv));
            }
            return Err(ScriptError::UnknownType(event.kind.clone()));
        }
        proof {
            assert(sv[i as int] == script@[i as int]@);
            assert(raw_events@ =~= expand_upto(sv, i as int + 1));
        }
        i = i + 1;
    }

    if raw_events.len() > 1 {
        sort_raw_events(&mut raw_events);
    }
    Ok(raw_events)
}

} // verus!

verus! {

/// The repeat events between the start of the repeat window and the
/// release, one every interval.
pub open spec fn repeats_between(key: InputKey, at: int, release: int) -> Seq<TimedEvent>
    decreases (if release > at { release - at } else { 0 }),
{
    if at >= release {
        Seq::empty()
    } else {
        seq![
            TimedEvent { time_ms: at as u32, key, kind: InputType::Repeat },
        ] + repeats_between(key, at + 150, release)
    }
}

/// The synthesis state: which keys are down and since when, plus the
/// events produced so far.
pub struct SynthState {
    pub pressed: Seq<bool>,
    pub press_times: Seq<u32>,
    pub out: Seq<TimedEvent>,
}

/// One raw edge of the synthesis: every edge passes through; a release
/// after a long hold inserts the long press at the threshold and the
/// repeats before the release; a quick release inserts the short press at
/// the release.
pub open spec fn synth_step(st: SynthState, raw: RawEvent) -> SynthState {
    let k = raw.key.index();
    let out1 = st.out.push(
        TimedEvent { time_ms: raw.time_ms, key: raw.key, kind: raw.kind },
    );
    match raw.kind {
        InputType::Press => SynthState {
            pressed: st.pressed.update(k, true),
            press_times: st.press_times.update(k, raw.time_ms),
            out: out1,
        },
        InputType::Release => {
            if !st.pressed[k] {
                SynthState { out: out1, ..st }
            } else {
                let pt = st.press_times[k] as int;
                let rt = raw.time_ms as int;
                let hold = sat_sub(rt, pt);
                if hold >= 300 {
                    let long_at = pt + 300;
                    SynthState {
                        pressed: st.pressed.update(k, false),
                        press_times: st.press_times,
                        out: out1.push(
                            TimedEvent {
                                time_ms: long_at as u32,
                                key: raw.key,
                                kind: InputType::LongPress,
                            },
                        ) + repeats_between(raw.key, long_at + 150, rt),
                    }
                } else {
                    SynthState {
                        pressed: st.pressed.update(k, false),
                        press_times: st.press_times,
                        out: out1.push(
                            TimedEvent {
                                time_ms: raw.time_ms,
                                key: raw.key,
                                kind: InputType::ShortPress,
                            },
                        ),
                    }
                }
            }
        },
        _ => SynthState { out: out1, ..st },
    }
}

/// The synthesis folded over the raw edges below `i`.
pub open spec fn synth_upto(raw: Seq<RawEvent>, i: int) -> SynthState
    decreases i,
{
    if i <= 0 {
        SynthState {
            pressed: Seq::new(6, |j: int| false),
            press_times: Seq::new(6, |j: int| 0u32),
            out: Seq::empty(),
        }
    } else {
        synth_step(synth_upto(raw, i - 1), raw[i - 1])
    }
}

/// The synthesized timeline of a raw edge sequence, stably sorted whenever
/// there is more than one event.
pub open spec fn synth_timeline(raw: Seq<RawEvent>) -> Seq<TimedEvent> {
    let evs = synth_upto(raw, raw.len() as int).out;
    if evs.len() > 1 {
        timed_sort(evs)
    } else {
        evs
    }
}

/// Synthesize the event stream the input processor would produce from a
/// raw edge timeline.
pub fn build_timed_events(raw_events: &Vec<RawEvent>) -> (r: Vec<TimedEvent>)
    ensures
        r@ == synth_timeline(raw_events@),
{
    let mut events: Vec<TimedEvent> = Vec::new();
    let mut pressed: Vec<bool> = Vec::new();
    let mut press_times: Vec<u32> = Vec::new();
    let mut j: usize = 0;
    while j < 6
        invariant
            j <= 6,
            pressed@.len() == j,
            press_times@.len() == j,
            forall|i: int| 0 <= i < j ==> !pressed@[i] && press_times@[i] == 0u32,
        decreases 6 - j,
    {
        pressed.push(false);
        press_times.push(0);
        j = j + 1;
    }
    proof {
        assert(pressed@ =~= Seq::new(6, |i: int| false));
        assert(press_times@ =~= Seq::new(6, |i: int| 0u32));
    }

    let n = raw_events.len();
    let mut i: usize = 0;
    while i < n
        invariant
            i <= n,
            n == raw_events@.len(),
            pressed@.len() == 6,
            press_times@.len() == 6,
            synth_upto(raw_events@, i as int) == (SynthState {
                pressed: pressed@,
                press_times: press_times@,
                out: events@,
            }),
        decreases n - i,
    {
        let raw = raw_events[i];
        let k = raw.key.as_index();
        events.push(TimedEvent { time_ms: raw.time_ms, key: raw.key, kind: raw.kind });

        match raw.kind {
            InputType::Press => {
                pressed.set(k, true);
                press_times.set(k, raw.time_ms);
            },
            InputType::Release => {
                if pressed[k] {
                    pressed.set(k, false);
                    let pt = press_times[k];
                    let rt = raw.time_ms;
                    let hold = if rt >= pt {
                        rt - pt
                    } else {
                        0
                    };
                    if hold >= 300 {
                        let long_at: u32 = pt + 300;
                        events.push(
                            TimedEvent { time_ms: long_at, key: raw.key, kind: InputType::LongPress },
                        );
                        let ghost base = events@;
                        let mut rep: u64 = long_at as u64 + 150;
                        while rep < rt as u64
                            invariant
                                long_at as int + 150 <= rep,
                                rep <= rt as u64 + 150,
                                (rep - (long_at as int + 150)) % 150 == 0,
                                rt <= 0xffff_ffffu32,
                                events@ == base + repeats_between(
                                    raw.key,
                                    long_at as int + 150,
                                    rep as int,
                                ),
                                repeats_between(raw.key, long_at as int + 150, rt as int)
                                    == repeats_between(raw.key, long_at as int + 150, rep as int)
                                    + repeats_between(raw.key, rep as int, rt as int),
                            decreases (if rt as u64 > rep { rt - rep as int } else { 0int }),
                        {
                            events.push(
                                TimedEvent {
                                    time_ms: rep as u32,
                                    key: raw.key,
                                    kind: InputType::Repeat,
                                },
                            );
                            proof {
                                lemma_repeats_split(
                                    raw.key,
                                    long_at as int + 150,
                                    rep as int,
                                    rt as int,
                                );
                                assert(events@ =~= base + repeats_between(
                                    raw.key,
                                    long_at as int + 150,
                                    rep as int + 150,
                                ));
                            }
                            rep = rep + 150;
                        }
                        proof {
                            assert(repeats_between(raw.key, rep as int, rt as int)
                                =~= Seq::<TimedEvent>::empty());
                            assert(events@ =~= base + repeats_between(
                                raw.key,
                                long_at as int + 150,
                                rt as int,
                            ));
                        }
                    } else {
                        events.push(
                            TimedEvent { time_ms: rt, key: raw.key, kind: InputType::ShortPress },
                        );
                    }
                }
            },
            _ => {},
        }
        proof {
            assert(synth_upto(raw_events@, i as int + 1) == synth_step(
                synth_upto(raw_events@, i as int),
                raw_events@[i as int],
            ));
            assert(synth_upto(raw_events@, i as int + 1) =~~= (SynthState {
                pressed: pressed@,
                press_times: press_times@,
                out: events@,
            }));
        }
        i = i + 1;
    }

    if events.len() > 1 {
        sort_timed_events(&mut events);
    }
    events
}

/// A repeat window splits at any step boundary inside it.
proof fn lemma_repeats_split(key: InputKey, a: int, mid: int, b: int)
    requires
        a <= mid < b,
        (mid - a) % 150 == 0,
    ensures
        repeats_between(key, a, mid + 150) == repeats_between(key, a, mid) + seq![
            TimedEvent { time_ms: mid as u32, key, kind: InputType::Repeat },
        ],
        repeats_between(key, a, b) == repeats_between(key, a, mid) + repeats_between(key, mid, b),
    decreases mid - a,
{
    assert(a < mid ==> a + 150 <= mid);
    if a == mid {
        assert(repeats_between(key, a, mid) =~= Seq::<TimedEvent>::empty());
        assert(repeats_between(key, a + 150, mid + 150) =~= Seq::<TimedEvent>::empty());
        assert(repeats_between(key, a, mid + 150) =~= seq![
            TimedEvent { time_ms: mid as u32, key, kind: InputType::Repeat },
        ]);
        assert(repeats_between(key, a, b) =~= repeats_between(key, a, mid) + repeats_between(
            key,
            mid,
            b,
        ));
    } else {
        lemma_repeats_split(key, a + 150, mid, b);
        assert(repeats_between(key, a, mid + 150) =~= repeats_between(key, a, mid) + seq![
            TimedEvent { time_ms: mid as u32, key, kind: InputType::Repeat },
        ]);
        assert(repeats_between(key, a, b) =~= repeats_between(key, a, mid) + repeats_between(
            key,
            mid,
            b,
        ));
    }
}

} // verus!

verus! {

/// Multiplication on clock values, saturating at the top of the clock.
pub open spec fn sat_mul(a: int, b: int) -> int {
    if a * b > 0xffff_ffff {
        0xffff_ffff
    } else {
        a * b
    }
}

/// The end of a fixed-mode run: the later of the last frame tick and the
/// last scripted event time.
pub fn fixed_end_time(frames: u32, frame_ms: u32, last_event_time: u32) -> (r: u32)
    ensures
        r as int == {
            let last_render = sat_mul(sat_sub(frames as int, 1), frame_ms as int);
            if last_render >= last_event_time as int {
                last_render
            } else {
                last_event_time as int
            }
        },
{
    let fr: u64 = if frames == 0 {
        0
    } else {
        frames as u64 - 1
    };
    proof {
        assert(fr * frame_ms <= 0xffff_ffff * 0xffff_ffffu64) by (nonlinear_arith)
            requires
                fr <= 0xffff_ffff,
                frame_ms <= 0xffff_ffffu32,
        ;
    }
    let wide: u64 = fr * frame_ms as u64;
    let last_render: u32 = if wide > 0xffff_ffff {
        0xffff_ffff
    } else {
        wide as u32
    };
    if last_render >= last_event_time {
        last_render
    } else {
        last_event_time
    }
}

/// The next virtual time an event-mode driver acts at: the earlier of the
/// next scripted event and the next timer fire; none when neither is due.
pub fn next_due_time(next_event: Option<u32>, next_timer: Option<u32>) -> (r: Option<u32>)
    ensures
        r == (match (next_event, next_timer) {
            (Some(e), Some(t)) => Some(
                if e <= t {
                    e
                } else {
                    t
                },
            ),
            (Some(e), None) => Some(e),
            (None, Some(t)) => Some(t),
            (None, None) => None::<u32>,
        }),
{
    match (next_event, next_timer) {
        (Some(e), Some(t)) => Some(
            if e <= t {
                e
            } else {
                t
            },
        ),
        (Some(e), None) => Some(e),
        (None, Some(t)) => Some(t),
        (None, None) => None,
    }
}

/// Whether a tick is within an event-mode duration budget; an absent
/// budget admits every tick.
pub fn within_duration(t: u32, duration_ms: Option<u32>) -> (r: bool)
    ensures
        r == (match duration_ms {
            Some(d) => t <= d,
            None => true,
        }),
{
    match duration_ms {
        Some(d) => t <= d,
        None => true,
    }
}

} // verus!
