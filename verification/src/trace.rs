//! The trace recorder: an in-memory log of every host-ABI call, and a
//! byte-exact JSON rendering of the log. The JSON output is specified to
//! the byte, so a trace is a deterministic function of the recorded events
//! and the run metadata.

use vstd::prelude::*;
use vstd::string::StringSliceAdditionalSpecFns;

verus! {

/// One argument of a recorded call.
pub enum TraceArg {
    /// An integer argument.
    Int(i64),
    /// A string argument.
    Str(String),
}

impl TraceArg {
    /// An integer argument.
    pub fn of_int(value: i64) -> (r: TraceArg)
        ensures
            r matches TraceArg::Int(v) && v == value,
    {
        TraceArg::Int(value)
    }

    /// A string argument.
    pub fn of_str(value: &str) -> (r: TraceArg)
        ensures
            r matches TraceArg::Str(s) && s@ == value@,
    {
        TraceArg::Str(value.to_owned())
    }
}

/// A recorded argument, with string arguments held as their UTF-8 bytes.
pub enum ArgBytes {
    Int(i64),
    Str(Vec<u8>),
}

/// The spec-level form of a recorded argument.
pub enum ArgView {
    Int(int),
    Str(Seq<u8>),
}

impl View for ArgBytes {
    type V = ArgView;

    open spec fn view(&self) -> ArgView {
        match self {
            ArgBytes::Int(v) => ArgView::Int(*v as int),
            ArgBytes::Str(s) => ArgView::Str(s@),
        }
    }
}

/// One recorded host-ABI call.
pub struct TraceEvent {
    /// The frame counter at the time of the call.
    pub frame: u32,
    /// The function name, as UTF-8 bytes.
    pub fn_name: Vec<u8>,
    /// The call arguments.
    pub args: Vec<ArgBytes>,
    /// The recorded return value, when one was reported.
    pub ret: Option<i64>,
}

/// The spec-level form of a recorded call.
pub struct EventView {
    pub frame: int,
    pub fn_name: Seq<u8>,
    pub args: Seq<ArgView>,
    pub ret: Option<int>,
}

impl View for TraceEvent {
    type V = EventView;

    open spec fn view(&self) -> EventView {
        EventView {
            frame: self.frame as int,
            fn_name: self.fn_name@,
            args: Seq::new(self.args@.len(), |i: int| self.args@[i]@),
            ret: match self.ret {
                Some(v) => Some(v as int),
                None => None,
            },
        }
    }
}

/// Decimal digits of a non-negative integer, most significant first.
pub open spec fn dec_u(n: int) -> Seq<u8>
    decreases n,
{
    if n < 10 {
        seq![(48 + if n >= 0 { n } else { 0 }) as u8]
    } else {
        dec_u(n / 10) + seq![(48 + n % 10) as u8]
    }
}

/// Decimal digits of an integer, with a leading minus for negatives.
pub open spec fn dec_i(v: int) -> Seq<u8> {
    if v < 0 {
        seq![45u8] + dec_u(-v)
    } else {
        dec_u(v)
    }
}

/// A lowercase hex digit.
pub open spec fn hex_digit(v: int) -> u8 {
    if v < 10 {
        (48 + v) as u8
    } else {
        (87 + v) as u8
    }
}

/// The JSON escape of one string byte: quote, backslash and the common
/// control bytes get two-character escapes, other control bytes (the C0
/// range and DEL) get a `\u00..` escape, everything else passes through.
/// The escapes work on UTF-8 bytes, so control codepoints above 0x7F pass
/// through as their raw byte sequences.
pub open spec fn esc_byte(b: u8) -> Seq<u8> {
    if b == 34 {
        seq![92u8, 34u8]
    } else if b == 92 {
        seq![92u8, 92u8]
    } else if b == 10 {
        seq![92u8, 110u8]
    } else if b == 13 {
        seq![92u8, 114u8]
    } else if b == 9 {
        seq![92u8, 116u8]
    } else if b < 0x20 || b == 0x7f {
        seq![92u8, 117u8, 48u8, 48u8, hex_digit((b >> 4) as int), hex_digit((b & 0xf) as int)]
    } else {
        seq![b]
    }
}

/// The JSON escape of a whole string body.
pub open spec fn esc_bytes(s: Seq<u8>) -> Seq<u8>
    decreases s.len(),
{
    if s.len() == 0 {
        Seq::empty()
    } else {
        esc_byte(s[0]) + esc_bytes(s.skip(1))
    }
}

/// A quoted, escaped JSON string.
pub open spec fn json_string(s: Seq<u8>) -> Seq<u8> {
    seq![34u8] + esc_bytes(s) + seq![34u8]
}

/// One rendered argument.
pub open spec fn json_arg(a: ArgView) -> Seq<u8> {
    match a {
        ArgView::Int(v) => dec_i(v),
        ArgView::Str(s) => json_string(s),
    }
}

/// The rendered argument list body, comma separated, starting at `i`.
pub open spec fn json_args_from(args: Seq<ArgView>, i: int) -> Seq<u8>
    decreases args.len() - i,
{
    if i < 0 || i >= args.len() {
        Seq::empty()
    } else {
        let lead: Seq<u8> = if i > 0 {
            (", ").spec_bytes()
        } else {
            Seq::empty()
        };
        lead + json_arg(args[i]) + json_args_from(args, i + 1)
    }
}

/// One rendered event line.
pub open spec fn json_event(ev: EventView) -> Seq<u8> {
    ("    {\"frame\": ").spec_bytes() + dec_i(ev.frame) + (", \"fn\": ").spec_bytes()
        + json_string(ev.fn_name) + (", \"args\": [").spec_bytes() + json_args_from(ev.args, 0)
        + ("]").spec_bytes() + (match ev.ret {
        Some(v) => (", \"ret\": ").spec_bytes() + dec_i(v),
        None => Seq::empty(),
    }) + ("}").spec_bytes()
}

/// The rendered event lines starting at `i`, each on its own line, with a
/// comma after every line but the last.
pub open spec fn json_events_from(events: Seq<EventView>, i: int) -> Seq<u8>
    decreases events.len() - i,
{
    if i < 0 || i >= events.len() {
        Seq::empty()
    } else {
        let comma: Seq<u8> = if i + 1 < events.len() {
            (",").spec_bytes()
        } else {
            Seq::empty()
        };
        json_event(events[i]) + comma + ("\n").spec_bytes() + json_events_from(events, i + 1)
    }
}

/// The complete trace document.
pub open spec fn json_trace(events: Seq<EventView>, app: Seq<u8>, seed: int, frames: int) -> Seq<
    u8,
> {
    ("{\n  \"app\": ").spec_bytes() + json_string(app) + (",\n  \"seed\": ").spec_bytes() + dec_i(
        seed,
    ) + (",\n  \"frames\": ").spec_bytes() + dec_i(frames) + (",\n  \"events\": [\n").spec_bytes()
        + json_events_from(events, 0) + ("  ]\n}\n").spec_bytes()
}

/// Append a byte slice.
fn append_bytes(out: &mut Vec<u8>, b: &[u8])
    ensures
        final(out)@ == old(out)@ + b@,
{
    let mut i: usize = 0;
    while i < b.len()
        invariant
            i <= b@.len(),
            out@ == old(out)@ + b@.take(i as int),
        decreases b@.len() - i,
    {
        out.push(b[i]);
        proof {
            assert(old(out)@ + b@.take(i as int + 1) =~= (old(out)@ + b@.take(i as int)).push(
                b@[i as int],
            ));
        }
        i = i + 1;
    }
    proof {
        assert(b@.take(b@.len() as int) =~= b@);
    }
}

/// Append the decimal digits of a non-negative value.
fn append_dec_u(out: &mut Vec<u8>, n: u64)
    ensures
        final(out)@ == old(out)@ + dec_u(n as int),
    decreases n,
{
    if n >= 10 {
        append_dec_u(out, n / 10);
    }
    out.push((48 + (n % 10) as u8));
    proof {
        if n < 10 {
            assert(old(out)@ + dec_u(n as int) =~= old(out)@.push((48 + (n as int)) as u8));
        } else {
            assert(old(out)@ + dec_u(n as int) =~= (old(out)@ + dec_u(n as int / 10)).push(
                (48 + (n as int) % 10) as u8,
            ));
        }
    }
}

/// Append the decimal digits of a signed value.
fn append_dec_i(out: &mut Vec<u8>, v: i64)
    ensures
        final(out)@ == old(out)@ + dec_i(v as int),
{
    if v < 0 {
        out.push(45u8);
        let mag: u64 = if v == i64::MIN {
            0x8000_0000_0000_0000u64
        } else {
            (-v) as u64
        };
        append_dec_u(out, mag);
        proof {
            assert(old(out)@ + dec_i(v as int) =~= (old(out)@.push(45u8)) + dec_u(-(v as int)));
        }
    } else {
        append_dec_u(out, v as u64);
    }
}

/// Append a quoted, escaped JSON string.
fn append_json_string(out: &mut Vec<u8>, s: &Vec<u8>)
    ensures
        final(out)@ == old(out)@ + json_string(s@),
{
    out.push(34u8);
    let mut i: usize = 0;
    while i < s.len()
        invariant
            i <= s@.len(),
            out@ == old(out)@ + seq![34u8] + esc_prefix(s@, i as int),
        decreases s@.len() - i,
    {
        let b = s[i];
        proof {
            assert((b >> 4) < 16 && (b & 0xf) < 16) by (bit_vector);
        }
        if b == 34 {
            out.push(92u8);
            out.push(34u8);
        } else if b == 92 {
            out.push(92u8);
            out.push(92u8);
        } else if b == 10 {
            out.push(92u8);
            out.push(110u8);
        } else if b == 13 {
            out.push(92u8);
            out.push(114u8);
        } else if b == 9 {
            out.push(92u8);
            out.push(116u8);
        } else if b < 0x20 || b == 0x7f {
            out.push(92u8);
            out.push(117u8);
            out.push(48u8);
            out.push(48u8);
            out.push(if b >> 4 < 10 {
                48 + (b >> 4)
            } else {
                87 + (b >> 4)
            });
            out.push(if (b & 0xf) < 10 {
                48 + (b & 0xf)
            } else {
                87 + (b & 0xf)
            });
        } else {
            out.push(b);
        }
        proof {
            lemma_esc_prefix_step(s@, i as int);
            assert(out@ =~= old(out)@ + seq![34u8] + esc_prefix(s@, i as int + 1));
        }
        i = i + 1;
    }
    out.push(34u8);
    proof {
        lemma_esc_prefix_all(s@, s@.len() as int);
        assert(s@.take(s@.len() as int) =~= s@);
        assert(final(out)@ =~= old(out)@ + json_string(s@));
    }
}

/// The escapes of the first `i` bytes.
pub open spec fn esc_prefix(s: Seq<u8>, i: int) -> Seq<u8>
    decreases i,
{
    if i <= 0 {
        Seq::empty()
    } else {
        esc_prefix(s, i - 1) + esc_byte(s[i - 1])
    }
}

/// Extending an escape prefix by one byte appends that byte's escape.
proof fn lemma_esc_prefix_step(s: Seq<u8>, i: int)
    requires
        0 <= i < s.len(),
    ensures
        esc_prefix(s, i + 1) == esc_prefix(s, i) + esc_byte(s[i]),
{
}

/// The full escape prefix is the escape of the whole string.
proof fn lemma_esc_prefix_all(s: Seq<u8>, i: int)
    requires
        0 <= i <= s.len(),
    ensures
        esc_prefix(s, i) == esc_bytes(s.take(i)),
    decreases i,
{
    if i > 0 {
        lemma_esc_prefix_all(s, i - 1);
        lemma_esc_bytes_snoc(s.take(i - 1), s[i - 1]);
        assert(s.take(i - 1).push(s[i - 1]) =~= s.take(i));
    } else {
        assert(s.take(0) =~= Seq::<u8>::empty());
    }
}

/// Escaping distributes over appending one byte.
proof fn lemma_esc_bytes_snoc(s: Seq<u8>, b: u8)
    ensures
        esc_bytes(s.push(b)) == esc_bytes(s) + esc_byte(b),
    decreases s.len(),
{
    let sp = s.push(b);
    if s.len() == 0 {
        assert(sp[0] == b);
        assert(sp.skip(1) =~= Seq::<u8>::empty());
        assert(esc_bytes(sp) == esc_byte(b) + esc_bytes(Seq::<u8>::empty()));
        assert(esc_byte(b) + Seq::<u8>::empty() =~= esc_byte(b));
        assert(esc_bytes(s) =~= Seq::<u8>::empty());
        assert(esc_bytes(s) + esc_byte(b) =~= esc_byte(b));
    } else {
        assert(sp[0] == s[0]);
        assert(sp.skip(1) =~= s.skip(1).push(b));
        lemma_esc_bytes_snoc(s.skip(1), b);
        assert(esc_bytes(sp) == esc_byte(s[0]) + esc_bytes(s.skip(1).push(b)));
        assert(esc_bytes(s) == esc_byte(s[0]) + esc_bytes(s.skip(1)));
        assert(esc_byte(s[0]) + (esc_bytes(s.skip(1)) + esc_byte(b)) =~= (esc_byte(s[0])
            + esc_bytes(s.skip(1))) + esc_byte(b));
    }
}

/// Append one rendered event line (without the separator).
fn append_event(out: &mut Vec<u8>, ev: &TraceEvent)
    ensures
        final(out)@ == old(out)@ + json_event(ev@),
{
    append_bytes(out, ("    {\"frame\": ").as_bytes());
    append_dec_i(out, ev.frame as i64);
    append_bytes(out, (", \"fn\": ").as_bytes());
    append_json_string(out, &ev.fn_name);
    append_bytes(out, (", \"args\": [").as_bytes());

    let m = ev.args.len();
    let mut ai: usize = 0;
    let ghost args_header = out@;
    while ai < m
        invariant
            ai <= m,
            m == ev.args@.len(),
            out@ == args_header + json_args_prefix(ev@.args, ai as int),
        decreases m - ai,
    {
        if ai > 0 {
            append_bytes(out, (", ").as_bytes());
        }
        match &ev.args[ai] {
            ArgBytes::Int(v) => {
                append_dec_i(out, *v);
            },
            ArgBytes::Str(sv) => {
                append_json_string(out, sv);
            },
        }
        proof {
            assert(ev@.args[ai as int] == ev.args@[ai as int]@);
            lemma_json_args_prefix_step(ev@.args, ai as int);
            assert(out@ =~= args_header + json_args_prefix(ev@.args, ai as int + 1));
        }
        ai = ai + 1;
    }
    proof {
        lemma_json_args_prefix_all(ev@.args);
    }

    append_bytes(out, ("]").as_bytes());
    match ev.ret {
        Some(v) => {
            append_bytes(out, (", \"ret\": ").as_bytes());
            append_dec_i(out, v);
        },
        None => {},
    }
    append_bytes(out, ("}").as_bytes());
    proof {
        assert(final(out)@ =~= old(out)@ + json_event(ev@));
    }
}

/// The event log.
pub struct TraceLog {
    events: Vec<TraceEvent>,
    current_frame: u32,
}

impl TraceLog {
    /// The recorded events.
    pub closed spec fn events_spec(&self) -> Seq<EventView> {
        Seq::new(self.events@.len(), |i: int| self.events@[i]@)
    }

    /// The current frame counter.
    pub closed spec fn frame_spec(&self) -> int {
        self.current_frame as int
    }

    /// A fresh, empty log.
    pub fn new() -> (r: TraceLog)
        ensures
            r.events_spec().len() == 0,
            r.frame_spec() == 0,
    {
        TraceLog { events: Vec::new(), current_frame: 0 }
    }

    /// Clear the log and reset the frame counter.
    pub fn trace_reset(&mut self)
        ensures
            final(self).events_spec().len() == 0,
            final(self).frame_spec() == 0,
    {
        self.events.clear();
        self.current_frame = 0;
    }

    /// Set the frame counter recorded with subsequent calls.
    pub fn trace_begin(&mut self, frame: u32)
        ensures
            final(self).events_spec() == old(self).events_spec(),
            final(self).frame_spec() == frame as int,
    {
        self.current_frame = frame;
        proof {
            assert(final(self).events_spec() =~= old(self).events_spec());
        }
    }

    /// Record one call with its arguments.
    pub fn trace_call(&mut self, fn_name: &str, args: Vec<TraceArg>)
        ensures
            final(self).frame_spec() == old(self).frame_spec(),
            final(self).events_spec().len() == old(self).events_spec().len() + 1,
            final(self).events_spec().take(old(self).events_spec().len() as int) == old(
                self,
            ).events_spec(),
            ({
                let ev = final(self).events_spec().last();
                &&& ev.frame == old(self).frame_spec()
                &&& ev.fn_name == fn_name.spec_bytes()
                &&& ev.ret is None
                &&& ev.args.len() == args@.len()
                &&& forall|i: int|
                    0 <= i < args@.len() ==> #[trigger] ev.args[i] == arg_view_of(args@[i])
            }),
    {
        let n = args.len();
        let mut arg_bytes: Vec<ArgBytes> = Vec::new();
        let mut rest = args;
        let mut i: usize = 0;
        let ghost orig = rest@;
        while i < n
            invariant
                i <= n,
                n == orig.len(),
                rest@ == orig.skip(i as int),
                arg_bytes@.len() == i,
                forall|j: int| 0 <= j < i ==> #[trigger] arg_bytes@[j]@ == arg_view_of(orig[j]),
            decreases n - i,
        {
            proof {
                assert(rest@[0] == orig[i as int]);
                assert(rest@.skip(1) =~= orig.skip(i as int + 1));
            }
            let a = rest.remove(0);
            match a {
                TraceArg::Int(v) => {
                    arg_bytes.push(ArgBytes::Int(v));
                },
                TraceArg::Str(st) => {
                    let b = st.as_str().as_bytes_vec();
                    arg_bytes.push(ArgBytes::Str(b));
                },
            }
            i = i + 1;
        }
        let ev = TraceEvent {
            frame: self.current_frame,
            fn_name: fn_name.as_bytes_vec(),
            args: arg_bytes,
            ret: None,
        };
        self.events.push(ev);
        proof {
            assert(final(self).events_spec().take(old(self).events_spec().len() as int)
                =~= old(self).events_spec());
            let evv = final(self).events_spec().last();
            assert forall|k: int| 0 <= k < orig.len() implies #[trigger] evv.args[k]
                == arg_view_of(orig[k]) by {
            }
        }
    }

    /// Record the return value of the most recent call.
    pub fn trace_result(&mut self, value: i64)
        ensures
            final(self).frame_spec() == old(self).frame_spec(),
            old(self).events_spec().len() == 0 ==> final(self).events_spec() == old(
                self,
            ).events_spec(),
            old(self).events_spec().len() > 0 ==> final(self).events_spec() == old(
                self,
            ).events_spec().update(
                old(self).events_spec().len() - 1,
                (EventView { ret: Some(value as int), ..old(self).events_spec().last() }),
            ),
    {
        let n = self.events.len();
        if n == 0 {
            proof {
                assert(final(self).events_spec() =~= old(self).events_spec());
            }
            return ;
        }
        let last = self.events.remove(n - 1);
        let updated = TraceEvent { ret: Some(value), ..last };
        self.events.push(updated);
        proof {
            assert(final(self).events_spec() =~= old(self).events_spec().update(
                old(self).events_spec().len() - 1,
                EventView { ret: Some(value as int), ..old(self).events_spec().last() },
            ));
        }
    }

    /// Render the whole log as the trace JSON document. The output is a
    /// function of the recorded events and the metadata alone.
    pub fn trace_json(&self, app: &str, seed: u32, frames: u32) -> (r: Vec<u8>)
        ensures
            r@ == json_trace(self.events_spec(), app.spec_bytes(), seed as int, frames as int),
    {
        let mut out: Vec<u8> = Vec::new();
        append_bytes(&mut out, ("{\n  \"app\": ").as_bytes());
        let app_bytes = app.as_bytes_vec();
        append_json_string(&mut out, &app_bytes);
        append_bytes(&mut out, (",\n  \"seed\": ").as_bytes());
        append_dec_i(&mut out, seed as i64);
        append_bytes(&mut out, (",\n  \"frames\": ").as_bytes());
        append_dec_i(&mut out, frames as i64);
        append_bytes(&mut out, (",\n  \"events\": [\n").as_bytes());

        let n = self.events.len();
        let mut idx: usize = 0;
        let ghost header = out@;
        while idx < n
            invariant
                idx <= n,
                n == self.events@.len(),
                out@ == header + json_events_prefix(self.events_spec(), idx as int),
            decreases n - idx,
        {
            append_event(&mut out, &self.events[idx]);
            if idx + 1 < n {
                append_bytes(&mut out, (",").as_bytes());
            }
            append_bytes(&mut out, ("\n").as_bytes());
            proof {
                assert(self.events_spec()[idx as int] == self.events@[idx as int]@);
                lemma_json_events_prefix_step(self.events_spec(), idx as int);
                assert(out@ =~= header + json_events_prefix(self.events_spec(), idx as int + 1));
            }
            idx = idx + 1;
        }
        proof {
            lemma_json_events_prefix_all(self.events_spec());
        }
        append_bytes(&mut out, ("  ]\n}\n").as_bytes());
        proof {
            assert(out@ =~= json_trace(
                self.events_spec(),
                app.spec_bytes(),
                seed as int,
                frames as int,
            ));
        }
        out
    }
}

/// The spec-level form of a call argument.
pub open spec fn arg_view_of(a: TraceArg) -> ArgView {
    match a {
        TraceArg::Int(v) => ArgView::Int(v as int),
        TraceArg::Str(s) => ArgView::Str(vstd::utf8::encode_utf8(s@)),
    }
}

/// The rendered argument-list prefix below `i`.
pub open spec fn json_args_prefix(args: Seq<ArgView>, i: int) -> Seq<u8>
    decreases i,
{
    if i <= 0 {
        Seq::empty()
    } else {
        let lead: Seq<u8> = if i - 1 > 0 {
            (", ").spec_bytes()
        } else {
            Seq::empty()
        };
        json_args_prefix(args, i - 1) + lead + json_arg(args[i - 1])
    }
}

/// Extending the argument prefix by one argument.
proof fn lemma_json_args_prefix_step(args: Seq<ArgView>, i: int)
    requires
        0 <= i < args.len(),
    ensures
        json_args_prefix(args, i + 1) == json_args_prefix(args, i) + (if i > 0 {
            (", ").spec_bytes()
        } else {
            Seq::<u8>::empty()
        }) + json_arg(args[i]),
{
    assert(json_args_prefix(args, i + 1) =~= json_args_prefix(args, i) + (if i > 0 {
        (", ").spec_bytes()
    } else {
        Seq::<u8>::empty()
    }) + json_arg(args[i]));
}

/// The argument prefix over the whole list is the rendered list body.
proof fn lemma_json_args_prefix_all(args: Seq<ArgView>)
    ensures
        json_args_prefix(args, args.len() as int) == json_args_from(args, 0),
{
    lemma_json_args_glue(args, 0);
}

/// Gluing: the prefix below `i` plus the tail from `i` is the whole body.
proof fn lemma_json_args_glue(args: Seq<ArgView>, i: int)
    requires
        0 <= i <= args.len(),
    ensures
        json_args_prefix(args, args.len() as int) == json_args_prefix(args, i) + json_args_from(
            args,
            i,
        ),
    decreases args.len() - i,
{
    if i < args.len() {
        lemma_json_args_glue(args, i + 1);
        lemma_json_args_prefix_step(args, i);
        assert(json_args_prefix(args, args.len() as int) =~= json_args_prefix(args, i)
            + json_args_from(args, i));
    } else {
        assert(json_args_from(args, i) =~= Seq::<u8>::empty());
        assert(json_args_prefix(args, args.len() as int) =~= json_args_prefix(args, i)
            + json_args_from(args, i));
    }
}

/// The rendered event-lines prefix below `i`.
pub open spec fn json_events_prefix(events: Seq<EventView>, i: int) -> Seq<u8>
    decreases i,
{
    if i <= 0 {
        Seq::empty()
    } else {
        let comma: Seq<u8> = if i < events.len() {
            (",").spec_bytes()
        } else {
            Seq::empty()
        };
        json_events_prefix(events, i - 1) + json_event(events[i - 1]) + comma + ("\n").spec_bytes()
    }
}

/// Extending the event prefix by one line.
proof fn lemma_json_events_prefix_step(events: Seq<EventView>, i: int)
    requires
        0 <= i < events.len(),
    ensures
        json_events_prefix(events, i + 1) == json_events_prefix(events, i) + json_event(events[i])
            + (if i + 1 < events.len() {
            (",").spec_bytes()
        } else {
            Seq::<u8>::empty()
        }) + ("\n").spec_bytes(),
{
    assert(json_events_prefix(events, i + 1) =~= json_events_prefix(events, i) + json_event(
        events[i],
    ) + (if i + 1 < events.len() {
        (",").spec_bytes()
    } else {
        Seq::<u8>::empty()
    }) + ("\n").spec_bytes());
}

/// The event prefix over the whole log is the rendered event block.
proof fn lemma_json_events_prefix_all(events: Seq<EventView>)
    ensures
        json_events_prefix(events, events.len() as int) == json_events_from(events, 0),
{
    lemma_json_events_glue(events, 0);
}

/// Gluing for event lines.
proof fn lemma_json_events_glue(events: Seq<EventView>, i: int)
    requires
        0 <= i <= events.len(),
    ensures
        json_events_prefix(events, events.len() as int) == json_events_prefix(events, i)
            + json_events_from(events, i),
    decreases events.len() - i,
{
    if i < events.len() {
        lemma_json_events_glue(events, i + 1);
        lemma_json_events_prefix_step(events, i);
        assert(json_events_prefix(events, events.len() as int) =~= json_events_prefix(events, i)
            + json_events_from(events, i));
    } else {
        assert(json_events_from(events, i) =~= Seq::<u8>::empty());
        assert(json_events_prefix(events, events.len() as int) =~= json_events_prefix(events, i)
            + json_events_from(events, i));
    }
}

} // verus!
