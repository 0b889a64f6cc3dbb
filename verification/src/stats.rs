//! Keystroke counts and active typing time.

use std::time::Instant;
use vstd::prelude::*;
use crate::text::push_char;

verus! {

/// `std::time::Instant`, a reading of the monotonic clock; carried through
/// unopened.
#[verifier::external_type_specification]
#[verifier::external_body]
pub struct ExInstant(Instant);

/// Calls `Instant::now`. Nothing is claimed of the reading it returns.
#[verifier::external_body]
pub(crate) fn clock_now() -> Instant {
    Instant::now()
}

/// Calls `Instant::elapsed` and gives the time since `t` in nanoseconds.
/// The amount depends on the clock, so nothing is claimed of it.
#[verifier::external_body]
pub(crate) fn nanos_since(t: &Instant) -> u128 {
    t.elapsed().as_nanos()
}

/// Nanoseconds in one second.
pub const NANOS_PER_SEC: u128 = 1_000_000_000;

/// What was typed on one completed line, and how long it took.
#[derive(Debug, Clone, Copy)]
pub struct LineStats {
    pub keystrokes: usize,
    pub correct_keystrokes: usize,
    pub elapsed_nanos: u128,
}

/// Keystroke counts of a session, and the typing time, which runs only
/// between `resume` and `pause`.
#[derive(Debug)]
pub struct Stats {
    pub total_keystrokes: usize,
    pub correct_keystrokes: usize,
    /// Typing time of the closed intervals, in nanoseconds.
    pub accumulated_nanos: u128,
    /// When the interval that is open began; `None` while paused.
    pub resume_time: Option<Instant>,
}

/// The decimal digit character for `d` (below 10).
pub open spec fn digit_char(d: nat) -> char {
    ((48 + d) as u8) as char
}

/// The decimal representation of `n`, without leading zeros.
pub open spec fn decimal(n: nat) -> Seq<char>
    decreases n,
{
    if n < 10 {
        seq![digit_char(n)]
    } else {
        decimal(n / 10).push(digit_char(n % 10))
    }
}

/// `n` (below 100) on two digits, with a leading zero below 10.
pub open spec fn two_digits(n: nat) -> Seq<char> {
    seq![digit_char(n / 10), digit_char(n % 10)]
}

/// The display of `secs` seconds as minutes, a colon and two digits of
/// seconds, as in `2:05`.
pub open spec fn elapsed_text(secs: nat) -> Seq<char> {
    decimal(secs / 60) + seq![':'] + two_digits(secs % 60)
}

/// Whole seconds in `nanos` nanoseconds, at most `u64::MAX`.
pub open spec fn whole_secs(nanos: nat) -> nat {
    let s = nanos / (NANOS_PER_SEC as nat);
    if s > u64::MAX {
        u64::MAX as nat
    } else {
        s
    }
}

fn digit(d: u64) -> (c: char)
    requires
        d < 10,
    ensures
        c == digit_char(d as nat),
{
    let b: u8 = 48 + (d as u8);
    b as char
}

fn push_decimal(s: &mut String, n: u64)
    ensures
        final(s)@ == old(s)@ + decimal(n as nat),
    decreases n,
{
    if n >= 10 {
        push_decimal(s, n / 10);
    }
    push_char(s, digit(n % 10));
    assert(final(s)@ =~= old(s)@ + decimal(n as nat));
}

/// The display of a duration of `secs` seconds as `M:SS`.
pub fn format_elapsed(secs: u64) -> (s: String)
    ensures
        s@ == elapsed_text(secs as nat),
{
    let mut s = String::new();
    push_decimal(&mut s, secs / 60);
    push_char(&mut s, ':');
    let rest = secs % 60;
    push_char(&mut s, digit(rest / 10));
    push_char(&mut s, digit(rest % 10));
    assert(s@ =~= elapsed_text(secs as nat));
    s
}

impl Stats {
    /// A session with no keystrokes, no typing time, and the clock paused.
    pub fn new() -> (s: Self)
        ensures
            s.total_keystrokes == 0,
            s.correct_keystrokes == 0,
            s.accumulated_nanos == 0,
            s.resume_time is None,
    {
        Stats { total_keystrokes: 0, correct_keystrokes: 0, accumulated_nanos: 0, resume_time: None }
    }

    /// Closes the open interval, if any, adding `elapsed_nanos` (its length)
    /// to the typing time, which stops at `u128::MAX`.
    pub fn pause_after(&mut self, elapsed_nanos: u128)
        ensures
            final(self).resume_time is None,
            final(self).total_keystrokes == old(self).total_keystrokes,
            final(self).correct_keystrokes == old(self).correct_keystrokes,
            final(self).accumulated_nanos == if old(self).resume_time is Some {
                if old(self).accumulated_nanos + elapsed_nanos > u128::MAX {
                    u128::MAX
                } else {
                    (old(self).accumulated_nanos + elapsed_nanos) as u128
                }
            } else {
                old(self).accumulated_nanos
            },
    {
        if self.resume_time.is_some() {
            self.accumulated_nanos = self.accumulated_nanos.saturating_add(elapsed_nanos);
        }
        self.resume_time = None;
    }

    /// Stops the clock: the open interval, if any, is added to the typing time.
    pub fn pause(&mut self)
        ensures
            final(self).resume_time is None,
            final(self).total_keystrokes == old(self).total_keystrokes,
            final(self).correct_keystrokes == old(self).correct_keystrokes,
            final(self).accumulated_nanos >= old(self).accumulated_nanos,
            old(self).resume_time is None ==> final(self).accumulated_nanos
                == old(self).accumulated_nanos,
    {
        let elapsed = match &self.resume_time {
            Some(t) => nanos_since(t),
            None => 0,
        };
        self.pause_after(elapsed);
    }

    /// Starts the clock, unless it runs already.
    pub fn resume(&mut self)
        ensures
            final(self).resume_time is Some,
            old(self).resume_time is Some ==> final(self).resume_time == old(self).resume_time,
            final(self).total_keystrokes == old(self).total_keystrokes,
            final(self).correct_keystrokes == old(self).correct_keystrokes,
            final(self).accumulated_nanos == old(self).accumulated_nanos,
    {
        if self.resume_time.is_none() {
            self.resume_time = Some(clock_now());
        }
    }

    /// Counts a keystroke, correct or not, and starts the clock if it is paused.
    pub fn record_keystroke(&mut self, correct: bool)
        requires
            old(self).total_keystrokes < usize::MAX,
            correct ==> old(self).correct_keystrokes < usize::MAX,
        ensures
            final(self).total_keystrokes == old(self).total_keystrokes + 1,
            final(self).correct_keystrokes == old(self).correct_keystrokes + if correct {
                1int
            } else {
                0int
            },
            final(self).accumulated_nanos == old(self).accumulated_nanos,
            final(self).resume_time is Some,
            old(self).resume_time is Some ==> final(self).resume_time == old(self).resume_time,
    {
        self.resume();
        self.total_keystrokes = self.total_keystrokes + 1;
        if correct {
            self.correct_keystrokes = self.correct_keystrokes + 1;
        }
    }

    /// The typing time as `M:SS`, given `open_nanos`, the length of the open
    /// interval (ignored while paused).
    pub fn elapsed_display_after(&self, open_nanos: u128) -> (s: String)
        ensures
            s@ == elapsed_text(
                whole_secs(
                    if self.resume_time is Some {
                        if self.accumulated_nanos + open_nanos > u128::MAX {
                            u128::MAX as nat
                        } else {
                            (self.accumulated_nanos + open_nanos) as nat
                        }
                    } else {
                        self.accumulated_nanos as nat
                    },
                ),
            ),
    {
        let total = if self.resume_time.is_some() {
            self.accumulated_nanos.saturating_add(open_nanos)
        } else {
            self.accumulated_nanos
        };
        let secs = total / NANOS_PER_SEC;
        let secs64: u64 = if secs > u64::MAX as u128 {
            u64::MAX
        } else {
            secs as u64
        };
        format_elapsed(secs64)
    }

    /// The typing time so far, closed intervals and the open one, as `M:SS`.
    pub fn elapsed_display(&self) -> (s: String)
        ensures
            exists|secs: nat|
                secs >= whole_secs(self.accumulated_nanos as nat) && s@ == elapsed_text(secs),
            self.resume_time is None ==> s@ == elapsed_text(
                whole_secs(self.accumulated_nanos as nat),
            ),
    {
        let open = match &self.resume_time {
            Some(t) => nanos_since(t),
            None => 0,
        };
        let s = self.elapsed_display_after(open);
        proof {
            let total: nat = if self.resume_time is Some {
                if self.accumulated_nanos + open > u128::MAX {
                    u128::MAX as nat
                } else {
                    (self.accumulated_nanos + open) as nat
                }
            } else {
                self.accumulated_nanos as nat
            };
            assert(total >= self.accumulated_nanos);
            assert(total / (NANOS_PER_SEC as nat) >= (self.accumulated_nanos as nat) / (
            NANOS_PER_SEC as nat)) by (nonlinear_arith)
                requires
                    total >= self.accumulated_nanos,
            ;
        }
        s
    }
}

} // verus!
