//! The guest-facing cooperative timer: an optional interval and the next
//! fire time. Started, stopped and polled by the runtime; a poll that finds
//! the timer due advances the next fire time past the current clock.

use vstd::prelude::*;

verus! {

/// The largest representable clock value.
pub const TIME_MAX: u32 = 0xffff_ffff;

/// The next fire time after catching up past `now`, stepping by `interval`
/// and saturating at the top of the clock.
pub open spec fn timer_catch_up(next: int, interval: int, now: int) -> int
    decreases now + 1 - next,
{
    if interval <= 0 || next > now {
        next
    } else if next + interval > 0xffff_ffff {
        0xffff_ffff
    } else if next + interval > now {
        next + interval
    } else {
        timer_catch_up(next + interval, interval, now)
    }
}

/// Per-guest timer state.
pub struct TimerState {
    interval_ms: Option<u32>,
    next_ms: Option<u32>,
}

impl TimerState {
    /// The repeat interval, when the timer runs.
    pub closed spec fn interval_spec(&self) -> Option<u32> {
        self.interval_ms
    }

    /// The next fire time, when the timer runs.
    pub closed spec fn next_spec(&self) -> Option<u32> {
        self.next_ms
    }

    /// A timer is either stopped (no interval, no fire time) or running
    /// with a positive interval and a fire time.
    pub open spec fn wf(&self) -> bool {
        match (self.interval_spec(), self.next_spec()) {
            (Option::None, Option::None) => true,
            (Option::Some(i), Option::Some(_)) => i > 0,
            _ => false,
        }
    }

    /// Whether the timer is stopped.
    pub open spec fn stopped(&self) -> bool {
        self.interval_spec() is None && self.next_spec() is None
    }

    /// A fresh, stopped timer.
    pub fn new() -> (r: TimerState)
        ensures
            r.wf(),
            r.stopped(),
    {
        TimerState { interval_ms: None, next_ms: None }
    }

    /// Start the timer: the first fire is one interval from now, saturating
    /// at the top of the clock. A zero interval stops the timer instead.
    pub fn start(&mut self, now_ms: u32, interval_ms: u32)
        ensures
            final(self).wf(),
            interval_ms == 0 ==> final(self).stopped(),
            interval_ms > 0 ==> final(self).interval_spec() == Some(interval_ms)
                && final(self).next_spec() == Some(
                (if now_ms + interval_ms > 0xffff_ffff {
                    0xffff_ffffu32
                } else {
                    (now_ms + interval_ms) as u32
                }),
            ),
    {
        if interval_ms == 0 {
            self.stop();
            return ;
        }
        self.interval_ms = Some(interval_ms);
        let next = if now_ms > TIME_MAX - interval_ms {
            TIME_MAX
        } else {
            now_ms + interval_ms
        };
        self.next_ms = Some(next);
    }

    /// Stop the timer.
    pub fn stop(&mut self)
        ensures
            final(self).wf(),
            final(self).stopped(),
    {
        self.interval_ms = None;
        self.next_ms = None;
    }

    /// Poll the timer: report whether it has fired by `now_ms`, and if so
    /// advance the next fire time past `now_ms` in whole intervals. A
    /// stopped timer is never due.
    pub fn due(&mut self, now_ms: u32) -> (r: bool)
        requires
            old(self).wf(),
        ensures
            final(self).wf(),
            old(self).stopped() ==> !r && *final(self) == *old(self),
            old(self).interval_spec() matches Some(i) ==> old(self).next_spec() matches Some(n)
                ==> {
                &&& r == (now_ms >= n)
                &&& final(self).interval_spec() == old(self).interval_spec()
                &&& (now_ms < n ==> *final(self) == *old(self))
                &&& (now_ms >= n ==> final(self).next_spec() == Some(
                    timer_catch_up(n as int, i as int, now_ms as int) as u32,
                ))
            },
    {
        let (interval, next_start) = match (self.interval_ms, self.next_ms) {
            (Some(i), Some(n)) => (i, n),
            _ => {
                return false;
            },
        };

        if now_ms < next_start {
            return false;
        }

        let mut next = next_start;
        loop
            invariant_except_break
                self.interval_ms == Some(interval),
                self.next_ms == Some(next_start),
                interval > 0,
                next <= now_ms,
                timer_catch_up(next as int, interval as int, now_ms as int) == timer_catch_up(
                    next_start as int,
                    interval as int,
                    now_ms as int,
                ),
            ensures
                self.interval_ms == Some(interval),
                self.next_ms == Some(next_start),
                next as int == timer_catch_up(next_start as int, interval as int, now_ms as int),
            decreases now_ms - next,
        {
            if next > TIME_MAX - interval {
                next = TIME_MAX;
                break ;
            }
            let cand = next + interval;
            if cand > now_ms {
                next = cand;
                break ;
            }
            next = cand;
        }
        self.next_ms = Some(next);
        true
    }

    /// The next fire time, when the timer runs.
    pub fn next_ms(&self) -> (r: Option<u32>)
        ensures
            r == self.next_spec(),
    {
        self.next_ms
    }
}

/// Starting a timer with a zero interval is the same as stopping it: both
/// leave the one stopped state, which is never due and has no fire time.
pub proof fn lemma_start_zero_is_stop(a: TimerState, b: TimerState)
    requires
        a.stopped(),
        b.stopped(),
    ensures
        a == b,
{
}

} // verus!
