//! A rate limiter: it remembers when the last few attempts happened and
//! trips when too many of them fall into a short window; once tripped it
//! stays tripped for a penalty delay.
use std::collections::VecDeque;
use std::time::{Duration, Instant};
use vstd::prelude::*;

verus! {

#[verifier::external_type_specification]
#[verifier::external_body]
pub struct ExInstant(Instant);

/// Reads the monotonic clock (`Instant::now`). Nothing is stated of the
/// value: it is the time at which the call runs.
#[verifier::external_body]
fn clock_now() -> Instant {
    Instant::now()
}

/// The time passed since `origin` (`Instant::elapsed`). Nothing is stated
/// of the value: it depends on when the call runs.
#[verifier::external_body]
fn elapsed_since(origin: &Instant) -> Duration {
    origin.elapsed()
}

/// A duration in whole nanoseconds (`Duration::as_nanos`). Nothing is
/// stated of the value: `Duration` is opaque here.
#[verifier::external_body]
fn duration_nanos(d: &Duration) -> u128 {
    d.as_nanos()
}

/// Number of nanoseconds in one second.
pub const NANOS_PER_SEC: u128 = 1_000_000_000;

/// The abstract state of a [`TimeoutCounter`]. Times are nanoseconds
/// measured from the moment the counter was made.
pub struct CounterView {
    /// Times of the remembered attempts, oldest first.
    pub attempts: Seq<u128>,
    /// How many attempts are remembered.
    pub max_attempts: nat,
    /// When the counter tripped, if it is tripped.
    pub clear_time: Option<u128>,
    /// Seconds the counter stays tripped.
    pub penalty_delay: u64,
    /// Seconds within which `max_attempts` attempts trip the counter.
    pub window_size: u64,
}

/// The time from `since` to `now`; zero when `now` comes first, as
/// `Instant::elapsed` saturates at zero.
pub open spec fn elapsed(since: u128, now: u128) -> int {
    if now >= since {
        now - since
    } else {
        0
    }
}

/// Seconds as nanoseconds.
pub open spec fn nanos(secs: u64) -> int {
    secs * 1_000_000_000
}

/// What `mark` does: remember an attempt at `now`, forgetting the oldest
/// one when the history is full.
pub open spec fn spec_mark(v: CounterView, now: u128) -> CounterView {
    let kept = if v.attempts.len() == v.max_attempts && v.attempts.len() > 0 {
        v.attempts.drop_first()
    } else {
        v.attempts
    };
    CounterView { attempts: kept.push(now), ..v }
}

/// What `triggered` does at time `now`: the new state and the answer.
pub open spec fn spec_triggered(v: CounterView, now: u128) -> (CounterView, bool) {
    match v.clear_time {
        Some(c) => {
            if elapsed(c, now) > nanos(v.penalty_delay) {
                (CounterView { attempts: Seq::empty(), clear_time: None, ..v }, false)
            } else {
                (v, true)
            }
        },
        None => {
            if v.attempts.len() < v.max_attempts || v.attempts.len() == 0 {
                (v, false)
            } else if elapsed(v.attempts[0], now) < nanos(v.window_size) {
                (CounterView { clear_time: Some(now), ..v }, true)
            } else {
                (v, false)
            }
        },
    }
}

/// Marks at each of `times` in turn.
pub open spec fn spec_marks(v: CounterView, times: Seq<u128>) -> CounterView
    decreases times.len(),
{
    if times.len() == 0 {
        v
    } else {
        spec_mark(spec_marks(v, times.drop_last()), times.last())
    }
}

/// Counts attempts and trips when `max_attempts` of them happen within
/// `window_size` seconds; a tripped counter answers `true` for
/// `penalty_delay` seconds, then forgets every attempt.
pub struct TimeoutCounter {
    attempts: VecDeque<u128>,
    max_attempts: usize,
    clear_time: Option<u128>,
    penalty_delay: u64,
    window_size: u64,
    origin: Instant,
}

impl View for TimeoutCounter {
    type V = CounterView;

    closed spec fn view(&self) -> CounterView {
        CounterView {
            attempts: self.attempts@,
            max_attempts: self.max_attempts as nat,
            clear_time: self.clear_time,
            penalty_delay: self.penalty_delay,
            window_size: self.window_size,
        }
    }
}

impl TimeoutCounter {
    /// The moment the counter was made; its times count from here.
    pub closed spec fn origin(&self) -> Instant {
        self.origin
    }

    /// A counter with no attempts, not tripped, whose clock starts now.
    pub fn new(max_attempts: usize, penalty_delay: u64, window_size: u64) -> (c: Self)
        ensures
            c@.attempts == Seq::<u128>::empty(),
            c@.max_attempts == max_attempts,
            c@.clear_time is None,
            c@.penalty_delay == penalty_delay,
            c@.window_size == window_size,
    {
        let attempts = VecDeque::with_capacity(max_attempts);
        TimeoutCounter {
            attempts,
            max_attempts,
            clear_time: None,
            penalty_delay,
            window_size,
            origin: clock_now(),
        }
    }

    /// Records an attempt at time `now` (nanoseconds since the counter was
    /// made).
    pub fn mark_at(&mut self, now: u128)
        ensures
            final(self)@ == spec_mark(old(self)@, now),
            final(self).origin() == old(self).origin(),
            final(self)@.max_attempts == old(self)@.max_attempts,
            final(self)@.penalty_delay == old(self)@.penalty_delay,
            final(self)@.window_size == old(self)@.window_size,
    {
        if self.attempts.len() == self.max_attempts {
            self.attempts.pop_front();
        }
        self.attempts.push_back(now);
    }

    /// Reads the clock: the nanoseconds passed since the counter was made.
    pub fn elapsed_nanos(&self) -> u128 {
        let d = elapsed_since(&self.origin);
        duration_nanos(&d)
    }

    /// Records an attempt now.
    pub fn mark(&mut self)
        ensures
            exists|now: u128| final(self)@ == spec_mark(old(self)@, now),
            final(self).origin() == old(self).origin(),
            final(self)@.max_attempts == old(self)@.max_attempts,
            final(self)@.penalty_delay == old(self)@.penalty_delay,
            final(self)@.window_size == old(self)@.window_size,
    {
        let now = self.elapsed_nanos();
        self.mark_at(now);
    }

    /// Whether the counter is tripped at time `now`, updating it: a tripped
    /// counter whose penalty has passed forgets its attempts and answers
    /// `false`; otherwise it trips when its history is full and the oldest
    /// remembered attempt lies within the window.
    pub fn triggered_at(&mut self, now: u128) -> (t: bool)
        ensures
            (final(self)@, t) == spec_triggered(old(self)@, now),
            final(self).origin() == old(self).origin(),
            final(self)@.max_attempts == old(self)@.max_attempts,
            final(self)@.penalty_delay == old(self)@.penalty_delay,
            final(self)@.window_size == old(self)@.window_size,
    {
        match self.clear_time {
            Some(c) => {
                let passed: u128 = if now >= c {
                    now - c
                } else {
                    0
                };
                if passed > (self.penalty_delay as u128) * NANOS_PER_SEC {
                    self.attempts.clear();
                    self.clear_time = None;
                    return false;
                } else {
                    return true;
                }
            },
            None => {},
        }
        if self.attempts.len() < self.max_attempts || self.attempts.len() == 0 {
            false
        } else {
            let first = self.attempts[0];
            let passed: u128 = if now >= first {
                now - first
            } else {
                0
            };
            let t = passed < (self.window_size as u128) * NANOS_PER_SEC;
            if t {
                self.clear_time = Some(now);
            }
            t
        }
    }

    /// Whether the counter is tripped now, updating it as
    /// [`TimeoutCounter::triggered_at`] does.
    pub fn triggered(&mut self) -> (t: bool)
        ensures
            exists|now: u128| (final(self)@, t) == spec_triggered(old(self)@, now),
            final(self).origin() == old(self).origin(),
            final(self)@.max_attempts == old(self)@.max_attempts,
            final(self)@.penalty_delay == old(self)@.penalty_delay,
            final(self)@.window_size == old(self)@.window_size,
    {
        let now = self.elapsed_nanos();
        self.triggered_at(now)
    }
}

/// The last `n` elements of `s` (all of `s` when it is shorter).
pub open spec fn last_n(s: Seq<u128>, n: nat) -> Seq<u128> {
    if s.len() <= n {
        s
    } else {
        s.subrange(s.len() - n, s.len() as int)
    }
}

/// Sliding window: a counter that remembers at most `max_attempts`
/// attempts keeps, after any run of marks, exactly the `max_attempts` most
/// recent attempt times, oldest first; nothing else about it changes.
pub proof fn lemma_marks_keep_most_recent(v: CounterView, times: Seq<u128>)
    requires
        v.max_attempts > 0,
        v.attempts.len() <= v.max_attempts,
    ensures
        spec_marks(v, times).attempts == last_n(v.attempts + times, v.max_attempts),
        spec_marks(v, times).max_attempts == v.max_attempts,
        spec_marks(v, times).clear_time == v.clear_time,
        spec_marks(v, times).penalty_delay == v.penalty_delay,
        spec_marks(v, times).window_size == v.window_size,
    decreases times.len(),
{
    if times.len() > 0 {
        let prev = times.drop_last();
        lemma_marks_keep_most_recent(v, prev);
        let all = v.attempts + times;
        let all_prev = v.attempts + prev;
        assert(all_prev =~= all.drop_last());
        assert(all =~= all_prev.push(times.last()));
        let w = spec_marks(v, prev);
        if all_prev.len() < v.max_attempts {
            assert(spec_marks(v, times).attempts =~= last_n(all, v.max_attempts));
        } else {
            assert(w.attempts.len() == v.max_attempts);
            assert(spec_marks(v, times).attempts =~= last_n(all, v.max_attempts));
        }
    }
}

/// A burst trips the counter: when a counter that is not tripped has seen,
/// counting its remembered attempts, at least `max_attempts` attempts, and
/// the oldest of the last `max_attempts` of them lies within the window of
/// the check, the check answers `true` and the counter is tripped from the
/// time of the check.
pub proof fn lemma_burst_triggers(v: CounterView, times: Seq<u128>, now: u128)
    requires
        v.max_attempts > 0,
        v.attempts.len() <= v.max_attempts,
        v.clear_time is None,
        v.attempts.len() + times.len() >= v.max_attempts,
        elapsed(
            (v.attempts + times)[(v.attempts.len() + times.len() - v.max_attempts) as int],
            now,
        ) < nanos(v.window_size),
    ensures
        spec_triggered(spec_marks(v, times), now).1,
        spec_triggered(spec_marks(v, times), now).0.clear_time == Some(now),
{
    lemma_marks_keep_most_recent(v, times);
}

/// A tripped counter stays tripped: after a check that answered `true`,
/// every later check answers `true`, whatever attempts are marked in
/// between, as long as no more than the penalty delay has passed since the
/// counter tripped.
pub proof fn lemma_penalty_holds(v: CounterView, t1: u128, times: Seq<u128>, t2: u128)
    requires
        spec_triggered(v, t1).1,
        elapsed(spec_triggered(v, t1).0.clear_time->0, t2) <= nanos(v.penalty_delay),
    ensures
        spec_triggered(spec_marks(spec_triggered(v, t1).0, times), t2).1,
        spec_triggered(spec_marks(spec_triggered(v, t1).0, times), t2).0
            == spec_marks(spec_triggered(v, t1).0, times),
{
    lemma_marks_keep_clear_time(spec_triggered(v, t1).0, times);
}

/// Marking never touches whether and since when the counter is tripped.
pub proof fn lemma_marks_keep_clear_time(v: CounterView, times: Seq<u128>)
    ensures
        spec_marks(v, times).clear_time == v.clear_time,
        spec_marks(v, times).penalty_delay == v.penalty_delay,
        spec_marks(v, times).max_attempts == v.max_attempts,
        spec_marks(v, times).window_size == v.window_size,
    decreases times.len(),
{
    if times.len() > 0 {
        lemma_marks_keep_clear_time(v, times.drop_last());
    }
}

/// The penalty ends: a check made after the penalty delay has passed since
/// the counter tripped answers `false` and leaves the counter with no
/// attempts and not tripped; counting starts afresh, so that a check after
/// fewer than `max_attempts` new attempts also answers `false`.
pub proof fn lemma_penalty_expires(v: CounterView, now: u128, times: Seq<u128>, later: u128)
    requires
        v.clear_time is Some,
        elapsed(v.clear_time->0, now) > nanos(v.penalty_delay),
        times.len() < v.max_attempts,
    ensures
        !spec_triggered(v, now).1,
        spec_triggered(v, now).0.attempts.len() == 0,
        spec_triggered(v, now).0.clear_time is None,
        !spec_triggered(spec_marks(spec_triggered(v, now).0, times), later).1,
{
    let w = spec_triggered(v, now).0;
    lemma_marks_keep_most_recent(w, times);
    assert(w.attempts + times =~= times);
}

/// A counter's settings never change: neither marking nor checking alters
/// how many attempts it remembers, its penalty delay or its window, so
/// every penalty lasts the same time.
pub proof fn lemma_settings_never_change(v: CounterView, now: u128)
    ensures
        spec_mark(v, now).max_attempts == v.max_attempts,
        spec_mark(v, now).penalty_delay == v.penalty_delay,
        spec_mark(v, now).window_size == v.window_size,
        spec_triggered(v, now).0.max_attempts == v.max_attempts,
        spec_triggered(v, now).0.penalty_delay == v.penalty_delay,
        spec_triggered(v, now).0.window_size == v.window_size,
{
}

/// A tripped counter answers `true` exactly until its penalty delay has
/// passed since it tripped: at a time no later than that it answers
/// `true` and stays as it is; at any later time it answers `false`.
pub proof fn lemma_penalty_length(v: CounterView, now: u128)
    requires
        v.clear_time is Some,
    ensures
        spec_triggered(v, now).1 <==> elapsed(v.clear_time->0, now) <= v.penalty_delay as int
            * 1_000_000_000,
        spec_triggered(v, now).1 ==> spec_triggered(v, now).0 == v,
{
}

/// When a counter that is not tripped trips: exactly when it remembers at
/// least `max_attempts` attempts (and at least one) and the oldest of them
/// is less than `window_size` seconds old; it then counts as tripped from
/// the time of the check, and otherwise stays as it is.
pub proof fn lemma_trip_condition(v: CounterView, now: u128)
    requires
        v.clear_time is None,
    ensures
        spec_triggered(v, now).1 <==> (v.attempts.len() >= v.max_attempts && v.attempts.len() > 0
            && elapsed(v.attempts[0], now) < v.window_size as int * 1_000_000_000),
        spec_triggered(v, now).1 ==> (spec_triggered(v, now).0 == CounterView {
            clear_time: Some(now),
            ..v
        }),
        !spec_triggered(v, now).1 ==> spec_triggered(v, now).0 == v,
{
}

/// Marking remembers the new attempt as the latest one and keeps the
/// earlier ones in order, forgetting only the oldest when the history is
/// full.
pub proof fn lemma_mark_appends(v: CounterView, now: u128)
    ensures
        ({
            let m = spec_mark(v, now).attempts;
            let full = v.attempts.len() == v.max_attempts && v.attempts.len() > 0;
            &&& m.last() == now
            &&& full ==> m.len() == v.attempts.len() && forall|i: int|
                0 <= i < v.attempts.len() - 1 ==> m[i] == #[trigger] v.attempts[i + 1]
            &&& !full ==> m.len() == v.attempts.len() + 1 && forall|i: int|
                0 <= i < v.attempts.len() ==> m[i] == #[trigger] v.attempts[i]
        }),
        spec_mark(v, now).clear_time == v.clear_time,
{
}

} // verus!
