use vstd::prelude::*;

use crate::frame::Frame;

verus! {

/// Nanoseconds in one second. Times are counted in nanoseconds on a monotonic clock.
pub const NANOS_PER_SECOND: u64 = 1_000_000_000;

/// True when more than `interval` nanoseconds have passed from `since` to `now`.
pub open spec fn elapsed_exceeds(since: u64, now: u64, interval: u64) -> bool {
    now - since > interval
}

/// Tells whether more than `interval` nanoseconds have passed from `since` to `now`;
/// a `now` earlier than `since` counts as no time at all.
fn elapsed_more_than(since: u64, now: u64, interval: u64) -> (r: bool)
    ensures
        r == elapsed_exceeds(since, now, interval),
{
    now >= since && now - since > interval
}

/// Something that draws successive frames.
///
/// `step_spec` and `reset_spec` describe, as functions of the state, what
/// `next_frame` and `reset` do; each implementation is held to them.
pub trait Animation: Sized {
    /// The state and the frame contents after one `next_frame` at time `now`;
    /// left unspecified unless the implementation states it.
    closed spec fn step_spec(&self, frame: Seq<u8>, now: u64) -> (Self, Seq<u8>) {
        arbitrary()
    }

    /// The state after `reset` at time `now`; left unspecified unless the
    /// implementation states it.
    closed spec fn reset_spec(&self, now: u64) -> Self {
        arbitrary()
    }

    /// Draws the next time-step of the animation into `frame`.
    fn next_frame(&mut self, frame: &mut Frame, now: u64)
        requires
            old(frame).wf(),
        ensures
            final(frame).wf(),
            (*final(self), final(frame)@) == old(self).step_spec(old(frame)@, now),
    ;

    /// Returns the animation to its initial state.
    fn reset(&mut self, now: u64)
        ensures
            *final(self) == old(self).reset_spec(now),
    ;

    /// Advances this animation at most `fps` times per second.
    fn with_fps(self, fps: u64, now: u64) -> (r: FixedFPSAnimation<Self>)
        requires
            fps > 0,
        ensures
            r.inner() == self,
            r.interval() == NANOS_PER_SECOND / fps,
            r.last_frame() == now,
    {
        FixedFPSAnimation { inner: self, interval: NANOS_PER_SECOND / fps, last_frame: now }
    }

    /// Ends this animation once `duration` nanoseconds have passed since `now`.
    fn with_duration(self, duration: u64, now: u64) -> (r: TimeLimitedAnimation<Self>)
        ensures
            r.inner() == self,
            r.duration() == duration,
            r.started() == now,
    {
        TimeLimitedAnimation { inner: self, duration, started: now }
    }

    /// Plays this animation, then restarts it `times` more times.
    fn repeat(self, times: usize) -> (r: RepeatedAnimation<Self>)
        ensures
            r.inner() == self,
            r.loops() == times,
            r.count() == 0,
    {
        RepeatedAnimation { inner: self, loops: times, count: 0 }
    }
}

/// An animation that may come to an end on its own.
pub trait MaybeTerminatingAnimation: Animation {
    /// Whether the animation has ended by time `now`; left unspecified unless
    /// the implementation states it.
    closed spec fn maybe_ended_spec(&self, now: u64) -> bool {
        arbitrary()
    }

    /// Whether the animation has ended by time `now`; never true for one
    /// without a natural end.
    fn maybe_ended(&self, now: u64) -> (r: bool)
        ensures
            r == self.maybe_ended_spec(now),
    ;
}

/// An animation with a reliable end.
pub trait TerminatingAnimation: MaybeTerminatingAnimation {
    /// Whether the animation has ended by time `now`; left unspecified unless
    /// the implementation states it.
    closed spec fn ended_spec(&self, now: u64) -> bool {
        arbitrary()
    }

    /// Whether the animation has ended by time `now`; `maybe_ended` agrees with it.
    fn ended(&self, now: u64) -> (r: bool)
        ensures
            r == self.ended_spec(now),
            self.maybe_ended_spec(now) == r,
    ;
}

/// Advances its inner animation only when more than `interval` nanoseconds
/// have passed since the last advance; otherwise leaves the frame untouched.
#[derive(Debug)]
pub struct FixedFPSAnimation<T> {
    inner: T,
    interval: u64,
    last_frame: u64,
}

impl<T> FixedFPSAnimation<T> {
    /// The animation being paced.
    pub closed spec fn inner(&self) -> T {
        self.inner
    }

    /// The least time between two advances, in nanoseconds.
    pub closed spec fn interval(&self) -> u64 {
        self.interval
    }

    /// When the inner animation last advanced (or the limiter was made).
    pub closed spec fn last_frame(&self) -> u64 {
        self.last_frame
    }
}

impl<T: Animation> Animation for FixedFPSAnimation<T> {
    closed spec fn step_spec(&self, frame: Seq<u8>, now: u64) -> (Self, Seq<u8>) {
        if elapsed_exceeds(self.last_frame, now, self.interval) {
            let stepped = self.inner.step_spec(frame, now);
            (
                FixedFPSAnimation { inner: stepped.0, interval: self.interval, last_frame: now },
                stepped.1,
            )
        } else {
            (*self, frame)
        }
    }

    closed spec fn reset_spec(&self, now: u64) -> Self {
        FixedFPSAnimation {
            inner: self.inner.reset_spec(now),
            interval: self.interval,
            last_frame: self.last_frame,
        }
    }

    fn next_frame(&mut self, frame: &mut Frame, now: u64)
        ensures
            final(self).interval() == old(self).interval(),
            elapsed_exceeds(old(self).last_frame(), now, old(self).interval()) ==> {
                &&& final(self).last_frame() == now
                &&& (final(self).inner(), final(frame)@) == old(self).inner().step_spec(
                    old(frame)@,
                    now,
                )
            },
            !elapsed_exceeds(old(self).last_frame(), now, old(self).interval()) ==> {
                &&& *final(self) == *old(self)
                &&& final(frame)@ == old(frame)@
            },
    {
        if elapsed_more_than(self.last_frame, now, self.interval) {
            self.inner.next_frame(frame, now);
            self.last_frame = now;
        }
    }

    /// Resets the inner animation only; the time of the last advance is kept.
    fn reset(&mut self, now: u64)
        ensures
            final(self).inner() == old(self).inner().reset_spec(now),
            final(self).interval() == old(self).interval(),
            final(self).last_frame() == old(self).last_frame(),
    {
        self.inner.reset(now);
    }
}

impl<T: MaybeTerminatingAnimation> MaybeTerminatingAnimation for FixedFPSAnimation<T> {
    closed spec fn maybe_ended_spec(&self, now: u64) -> bool {
        self.inner.maybe_ended_spec(now)
    }

    fn maybe_ended(&self, now: u64) -> (r: bool)
        ensures
            r == self.inner().maybe_ended_spec(now),
    {
        self.inner.maybe_ended(now)
    }
}

impl<T: TerminatingAnimation> TerminatingAnimation for FixedFPSAnimation<T> {
    closed spec fn ended_spec(&self, now: u64) -> bool {
        self.inner.ended_spec(now)
    }

    fn ended(&self, now: u64) -> (r: bool)
        ensures
            r == self.inner().ended_spec(now),
    {
        self.inner.ended(now)
    }
}

/// Ends once more than `duration` nanoseconds have passed since it started, or
/// earlier if the inner animation reports that it has ended.
#[derive(Debug)]
pub struct TimeLimitedAnimation<T> {
    inner: T,
    duration: u64,
    started: u64,
}

impl<T> TimeLimitedAnimation<T> {
    /// The animation being limited.
    pub closed spec fn inner(&self) -> T {
        self.inner
    }

    /// How long the animation may run, in nanoseconds.
    pub closed spec fn duration(&self) -> u64 {
        self.duration
    }

    /// When the animation was made or last reset.
    pub closed spec fn started(&self) -> u64 {
        self.started
    }
}

impl<T: Animation> Animation for TimeLimitedAnimation<T> {
    closed spec fn step_spec(&self, frame: Seq<u8>, now: u64) -> (Self, Seq<u8>) {
        let stepped = self.inner.step_spec(frame, now);
        (
            TimeLimitedAnimation { inner: stepped.0, duration: self.duration, started: self.started },
            stepped.1,
        )
    }

    closed spec fn reset_spec(&self, now: u64) -> Self {
        TimeLimitedAnimation {
            inner: self.inner.reset_spec(now),
            duration: self.duration,
            started: now,
        }
    }

    fn next_frame(&mut self, frame: &mut Frame, now: u64)
        ensures
            (final(self).inner(), final(frame)@) == old(self).inner().step_spec(old(frame)@, now),
            final(self).duration() == old(self).duration(),
            final(self).started() == old(self).started(),
    {
        self.inner.next_frame(frame, now);
    }

    /// Resets the inner animation and restarts the clock at `now`.
    fn reset(&mut self, now: u64)
        ensures
            final(self).inner() == old(self).inner().reset_spec(now),
            final(self).duration() == old(self).duration(),
            final(self).started() == now,
    {
        self.inner.reset(now);
        self.started = now;
    }
}

impl<T: MaybeTerminatingAnimation> MaybeTerminatingAnimation for TimeLimitedAnimation<T> {
    closed spec fn maybe_ended_spec(&self, now: u64) -> bool {
        elapsed_exceeds(self.started, now, self.duration) || self.inner.maybe_ended_spec(now)
    }

    fn maybe_ended(&self, now: u64) -> (r: bool)
        ensures
            r == (elapsed_exceeds(self.started(), now, self.duration())
                || self.inner().maybe_ended_spec(now)),
    {
        self.ended(now)
    }
}

impl<T: MaybeTerminatingAnimation> TerminatingAnimation for TimeLimitedAnimation<T> {
    closed spec fn ended_spec(&self, now: u64) -> bool {
        elapsed_exceeds(self.started, now, self.duration) || self.inner.maybe_ended_spec(now)
    }

    fn ended(&self, now: u64) -> (r: bool)
        ensures
            r == (elapsed_exceeds(self.started(), now, self.duration())
                || self.inner().maybe_ended_spec(now)),
    {
        if elapsed_more_than(self.started, now, self.duration) {
            return true;
        }
        self.inner.maybe_ended(now)
    }
}

/// Plays `a` until it ends, then `b`.
#[derive(Debug)]
pub struct ChainedAnimation<T, U> {
    a: T,
    b: U,
    current: bool,
}

impl<T, U> ChainedAnimation<T, U> {
    /// Plays `a` until it ends, then `b`.
    pub fn new(a: T, b: U) -> (r: Self)
        ensures
            r.first() == a,
            r.second() == b,
            !r.second_active(),
    {
        ChainedAnimation { a, b, current: false }
    }

    /// The animation played first.
    pub closed spec fn first(&self) -> T {
        self.a
    }

    /// The animation played once the first has ended.
    pub closed spec fn second(&self) -> U {
        self.b
    }

    /// Whether the second animation is the one playing.
    pub closed spec fn second_active(&self) -> bool {
        self.current
    }
}

impl<T: TerminatingAnimation, U: Animation> Animation for ChainedAnimation<T, U> {
    closed spec fn step_spec(&self, frame: Seq<u8>, now: u64) -> (Self, Seq<u8>) {
        if !self.current && !self.a.ended_spec(now) {
            let stepped = self.a.step_spec(frame, now);
            (ChainedAnimation { a: stepped.0, b: self.b, current: false }, stepped.1)
        } else {
            let b = if self.current {
                self.b
            } else {
                self.b.reset_spec(now)
            };
            let stepped = b.step_spec(frame, now);
            (ChainedAnimation { a: self.a, b: stepped.0, current: true }, stepped.1)
        }
    }

    closed spec fn reset_spec(&self, now: u64) -> Self {
        ChainedAnimation { a: self.a.reset_spec(now), b: self.b, current: false }
    }

    /// While `a` plays: if it has ended, switches to `b`, resets it and draws
    /// its first frame in the same call; otherwise advances `a`. Then `b` alone.
    fn next_frame(&mut self, frame: &mut Frame, now: u64)
        ensures
            !old(self).second_active() && !old(self).first().ended_spec(now) ==> {
                &&& !final(self).second_active()
                &&& (final(self).first(), final(frame)@) == old(self).first().step_spec(
                    old(frame)@,
                    now,
                )
                &&& final(self).second() == old(self).second()
            },
            !old(self).second_active() && old(self).first().ended_spec(now) ==> {
                &&& final(self).second_active()
                &&& final(self).first() == old(self).first()
                &&& (final(self).second(), final(frame)@) == old(self).second().reset_spec(
                    now,
                ).step_spec(old(frame)@, now)
            },
            old(self).second_active() ==> {
                &&& final(self).second_active()
                &&& final(self).first() == old(self).first()
                &&& (final(self).second(), final(frame)@) == old(self).second().step_spec(
                    old(frame)@,
                    now,
                )
            },
    {
        if !self.current {
            if self.a.ended(now) {
                self.current = !self.current;
                self.b.reset(now);
            } else {
                self.a.next_frame(frame, now)
            }
        }
        if self.current {
            self.b.next_frame(frame, now)
        }
    }

    /// Resets `a` and makes it the active one; `b` is left as it is until the
    /// next switch resets it.
    fn reset(&mut self, now: u64)
        ensures
            final(self).first() == old(self).first().reset_spec(now),
            final(self).second() == old(self).second(),
            !final(self).second_active(),
    {
        self.a.reset(now);
        self.current = false;
    }
}

impl<T: TerminatingAnimation, U: MaybeTerminatingAnimation> MaybeTerminatingAnimation for ChainedAnimation<T, U> {
    closed spec fn maybe_ended_spec(&self, now: u64) -> bool {
        self.current && self.b.maybe_ended_spec(now)
    }

    fn maybe_ended(&self, now: u64) -> (r: bool)
        ensures
            r == (self.second_active() && self.second().maybe_ended_spec(now)),
    {
        self.current && self.b.maybe_ended(now)
    }
}

impl<T: TerminatingAnimation, U: TerminatingAnimation> TerminatingAnimation for ChainedAnimation<T, U> {
    closed spec fn ended_spec(&self, now: u64) -> bool {
        self.current && self.b.ended_spec(now)
    }

    /// Ended only when `b` is playing and has ended.
    fn ended(&self, now: u64) -> (r: bool)
        ensures
            r == (self.second_active() && self.second().ended_spec(now)),
    {
        self.current && self.b.ended(now)
    }
}

/// Plays its inner animation, then restarts it each time it ends, `loops` times.
#[derive(Debug)]
pub struct RepeatedAnimation<T> {
    inner: T,
    loops: usize,
    count: usize,
}

impl<T> RepeatedAnimation<T> {
    /// The animation being repeated.
    pub closed spec fn inner(&self) -> T {
        self.inner
    }

    /// How many times the animation is restarted.
    pub closed spec fn loops(&self) -> usize {
        self.loops
    }

    /// How many restarts have happened.
    pub closed spec fn count(&self) -> usize {
        self.count
    }
}

impl<T: TerminatingAnimation> Animation for RepeatedAnimation<T> {
    closed spec fn step_spec(&self, frame: Seq<u8>, now: u64) -> (Self, Seq<u8>) {
        let restart = self.inner.ended_spec(now) && self.count < self.loops;
        let inner = if restart {
            self.inner.reset_spec(now)
        } else {
            self.inner
        };
        let count = if restart {
            (self.count + 1) as usize
        } else {
            self.count
        };
        let stepped = inner.step_spec(frame, now);
        (RepeatedAnimation { inner: stepped.0, loops: self.loops, count }, stepped.1)
    }

    closed spec fn reset_spec(&self, now: u64) -> Self {
        RepeatedAnimation { inner: self.inner.reset_spec(now), loops: self.loops, count: 0 }
    }

    /// Restarts the inner animation first when it has ended and restarts are
    /// left, then advances it in the same call.
    fn next_frame(&mut self, frame: &mut Frame, now: u64)
        ensures
            final(self).loops() == old(self).loops(),
            old(self).inner().ended_spec(now) && old(self).count() < old(self).loops() ==> {
                &&& final(self).count() == old(self).count() + 1
                &&& (final(self).inner(), final(frame)@) == old(self).inner().reset_spec(
                    now,
                ).step_spec(old(frame)@, now)
            },
            !(old(self).inner().ended_spec(now) && old(self).count() < old(self).loops()) ==> {
                &&& final(self).count() == old(self).count()
                &&& (final(self).inner(), final(frame)@) == old(self).inner().step_spec(
                    old(frame)@,
                    now,
                )
            },
    {
        if self.inner.ended(now) && self.count < self.loops {
            self.inner.reset(now);
            self.count += 1;
        }
        self.inner.next_frame(frame, now);
    }

    /// Resets the inner animation and the restart count.
    fn reset(&mut self, now: u64)
        ensures
            final(self).inner() == old(self).inner().reset_spec(now),
            final(self).loops() == old(self).loops(),
            final(self).count() == 0,
    {
        self.inner.reset(now);
        self.count = 0;
    }
}

impl<T: TerminatingAnimation> MaybeTerminatingAnimation for RepeatedAnimation<T> {
    closed spec fn maybe_ended_spec(&self, now: u64) -> bool {
        self.count >= self.loops && self.inner.ended_spec(now)
    }

    fn maybe_ended(&self, now: u64) -> (r: bool)
        ensures
            r == (self.count() >= self.loops() && self.inner().ended_spec(now)),
    {
        self.ended(now)
    }
}

impl<T: TerminatingAnimation> TerminatingAnimation for RepeatedAnimation<T> {
    closed spec fn ended_spec(&self, now: u64) -> bool {
        self.count >= self.loops && self.inner.ended_spec(now)
    }

    /// Ended only when every restart has been used and the last run has ended.
    fn ended(&self, now: u64) -> (r: bool)
        ensures
            r == (self.count() >= self.loops() && self.inner().ended_spec(now)),
    {
        self.count >= self.loops && self.inner.ended(now)
    }
}

/// How many times a rate limiter whose inner animation last advanced at `last`,
/// with least gap `interval`, advances it over calls at the times `times`.
pub open spec fn limiter_advances(last: u64, interval: u64, times: Seq<u64>) -> nat
    decreases times.len(),
{
    if times.len() == 0 {
        0
    } else if elapsed_exceeds(last, times[0], interval) {
        1 + limiter_advances(times[0], interval, times.drop_first())
    } else {
        limiter_advances(last, interval, times.drop_first())
    }
}

/// The times never go backwards.
pub open spec fn nondecreasing(times: Seq<u64>) -> bool {
    forall|i: int, j: int|
        0 <= i && j == i + 1 && j < times.len() ==> #[trigger] times[i] <= #[trigger] times[j]
}

/// Consecutive times are at most one nanosecond apart.
pub open spec fn dense(times: Seq<u64>) -> bool {
    forall|i: int, j: int|
        0 <= i && j == i + 1 && j < times.len() ==> #[trigger] times[i] <= #[trigger] times[j]
            <= times[i] + 1
}

proof fn lemma_dense_rest(times: Seq<u64>)
    requires
        times.len() > 1,
        dense(times),
    ensures
        dense(times.drop_first()),
        nondecreasing(times),
        times[0] <= times[1] <= times[0] + 1,
        times.drop_first()[0] == times[1],
        times.drop_first().last() == times.last(),
{
    let rest = times.drop_first();
    assert forall|i: int, j: int| 0 <= i && j == i + 1 && j < rest.len() implies #[trigger] rest[i]
        <= #[trigger] rest[j] <= rest[i] + 1 by {
        assert(rest[i] == times[i + 1]);
        assert(rest[j] == times[j + 1]);
    }
    assert forall|i: int, j: int| 0 <= i && j == i + 1 && j < times.len() implies #[trigger] times[i]
        <= #[trigger] times[j] by {
    }
}

proof fn lemma_nondecreasing_rest(times: Seq<u64>)
    requires
        times.len() > 1,
        nondecreasing(times),
    ensures
        nondecreasing(times.drop_first()),
        times[0] <= times[1],
        times.drop_first()[0] == times[1],
        times.drop_first().last() == times.last(),
{
    let rest = times.drop_first();
    assert forall|i: int, j: int| 0 <= i && j == i + 1 && j < rest.len() implies #[trigger] rest[i]
        <= #[trigger] rest[j] by {
        assert(rest[i] == times[i + 1]);
        assert(rest[j] == times[j + 1]);
    }
}

proof fn lemma_advances_after(last: u64, interval: u64, times: Seq<u64>)
    requires
        times.len() > 0,
        nondecreasing(times),
        last <= times[0],
    ensures
        limiter_advances(last, interval, times) * (interval + 1) <= times.last() - last,
    decreases times.len(),
{
    let rest = times.drop_first();
    let c = limiter_advances(last, interval, times);
    if times.len() == 1 {
        assert(rest.len() == 0);
        assert(limiter_advances(times[0], interval, rest) == 0);
        assert(limiter_advances(last, interval, rest) == 0);
        lemma_product_of_small(c as int, interval + 1);
    } else {
        lemma_nondecreasing_rest(times);
        if elapsed_exceeds(last, times[0], interval) {
            lemma_advances_after(times[0], interval, rest);
            let c1 = limiter_advances(times[0], interval, rest);
            assert(c == 1 + c1);
            assert(c * (interval + 1) == c1 * (interval + 1) + (interval + 1)) by (nonlinear_arith)
                requires
                    c == 1 + c1,
            ;
        } else {
            lemma_advances_after(last, interval, rest);
        }
    }
}

/// Over calls at nondecreasing times spanning `T` nanoseconds, a rate limiter
/// with least gap `interval` (`1/f` seconds) advances its inner animation at
/// most `T/(interval+1) + 1` times, hence at most `floor(T*f) + 1` times,
/// whenever it last advanced.
pub proof fn lemma_rate_limit_upper_bound(last: u64, interval: u64, times: Seq<u64>)
    requires
        times.len() > 0,
        nondecreasing(times),
    ensures
        limiter_advances(last, interval, times) <= (times.last() - times[0]) / (interval + 1)
            + 1,
        interval > 0 ==> limiter_advances(last, interval, times) <= (times.last() - times[0])
            / (interval as int) + 1,
    decreases times.len(),
{
    let rest = times.drop_first();
    let c = limiter_advances(last, interval, times);
    let span = times.last() - times[0];
    assert(span >= 0) by {
        lemma_last_not_below_first(times);
    }
    if times.len() > 1 {
        lemma_nondecreasing_rest(times);
    } else {
        assert(rest.len() == 0);
        assert(limiter_advances(times[0], interval, rest) == 0);
    }
    let c1: nat;
    if elapsed_exceeds(last, times[0], interval) {
        if times.len() > 1 {
            lemma_advances_after(times[0], interval, rest);
        }
        c1 = limiter_advances(times[0], interval, rest);
        if times.len() == 1 {
            lemma_product_of_small(c1 as int, interval + 1);
        }
        assert(c1 * (interval + 1) <= span);
    } else if times.len() > 1 {
        lemma_rate_limit_upper_bound(last, interval, rest);
        c1 = (limiter_advances(last, interval, rest) - 1) as nat;
        assert(c == c1 + 1 || c == 0);
        let span1 = times.last() - times[1];
        assert(c <= span1 / (interval + 1) + 1);
        assert(span1 <= span);
        assert(span1 / (interval + 1) <= span / (interval + 1)) by {
            vstd::arithmetic::div_mod::lemma_div_is_ordered(span1, span, interval + 1);
        }
    } else {
        c1 = 0;
    }
    if elapsed_exceeds(last, times[0], interval) {
        assert(c == c1 + 1);
        assert(c1 <= span / (interval + 1)) by {
            vstd::arithmetic::div_mod::lemma_div_is_ordered(
                c1 * (interval + 1),
                span,
                interval + 1,
            );
            vstd::arithmetic::div_mod::lemma_div_multiples_vanish(c1 as int, interval + 1);
        }
    }
    if interval > 0 {
        assert(span / (interval + 1) <= span / (interval as int)) by {
            vstd::arithmetic::div_mod::lemma_div_is_ordered_by_denominator(
                span,
                interval as int,
                interval + 1,
            );
        }
    }
}

proof fn lemma_product_of_small(c: int, d: int)
    requires
        0 <= c <= 1,
    ensures
        c * d == if c == 0 {
            0
        } else {
            d
        },
{
}

proof fn lemma_last_not_below_first(times: Seq<u64>)
    requires
        times.len() > 0,
        nondecreasing(times),
    ensures
        times[0] <= times.last(),
    decreases times.len(),
{
    if times.len() > 1 {
        let init = times.drop_last();
        assert forall|i: int, j: int| 0 <= i && j == i + 1 && j < init.len() implies #[trigger] init[i]
            <= #[trigger] init[j] by {
            assert(init[i] == times[i]);
            assert(init[j] == times[j]);
        }
        lemma_last_not_below_first(init);
        assert(times[times.len() - 2] <= times[times.len() - 1]);
    }
}

proof fn lemma_advances_dense(last: u64, interval: u64, times: Seq<u64>)
    requires
        times.len() > 0,
        dense(times),
        times[0] - last <= interval + 1,
    ensures
        limiter_advances(last, interval, times) * (interval + 1) >= times.last() - last
            - interval,
    decreases times.len(),
{
    let rest = times.drop_first();
    let c = limiter_advances(last, interval, times);
    if times.len() > 1 {
        lemma_dense_rest(times);
    } else {
        assert(rest.len() == 0);
        assert(limiter_advances(times[0], interval, rest) == 0);
        assert(limiter_advances(last, interval, rest) == 0);
    }
    if elapsed_exceeds(last, times[0], interval) {
        if times.len() > 1 {
            lemma_advances_dense(times[0], interval, rest);
            let c1 = limiter_advances(times[0], interval, rest);
            assert(c * (interval + 1) == c1 * (interval + 1) + (interval + 1)) by (nonlinear_arith)
                requires
                    c == 1 + c1,
            ;
        } else {
            assert(c == 1);
        }
    } else if times.len() > 1 {
        lemma_advances_dense(last, interval, rest);
    }
}

/// Over calls at most one nanosecond apart spanning `T` nanoseconds, starting no
/// earlier than the last advance, a rate limiter with least gap `interval`
/// (`1/f` seconds) advances its inner animation at least `T/(interval+1)` times;
/// while `T <= interval*(interval+1)` that is at least `floor(T*f) - 1` times.
pub proof fn lemma_rate_limit_lower_bound(last: u64, interval: u64, times: Seq<u64>)
    requires
        times.len() > 0,
        dense(times),
        last <= times[0],
    ensures
        limiter_advances(last, interval, times) >= (times.last() - times[0]) / (interval + 1),
        interval > 0 && times.last() - times[0] <= interval * (interval + 1) ==> limiter_advances(
            last,
            interval,
            times,
        ) + 1 >= (times.last() - times[0]) / (interval as int),
{
    let rest = times.drop_first();
    let c = limiter_advances(last, interval, times) as int;
    let span = times.last() - times[0];
    let d = interval + 1;
    if times.len() > 1 {
        lemma_dense_rest(times);
        lemma_last_not_below_first(times);
    }
    assert(span >= 0);
    if times.len() > 1 {
        lemma_dense_rest(times);
    } else {
        assert(rest.len() == 0);
        assert(limiter_advances(times[0], interval, rest) == 0);
        assert(limiter_advances(last, interval, rest) == 0);
    }
    if elapsed_exceeds(last, times[0], interval) {
        if times.len() > 1 {
            lemma_advances_dense(times[0], interval, rest);
            let c1 = limiter_advances(times[0], interval, rest);
            assert(c * d == c1 * d + d) by (nonlinear_arith)
                requires
                    c == 1 + c1,
            ;
        } else {
            lemma_product_of_small(c, d);
        }
        assert(c * d >= span - interval);
    } else {
        lemma_advances_dense(last, interval, times);
        assert(c * d >= span - interval);
    }
    assert(c >= span / d) by (nonlinear_arith)
        requires
            c * d >= span - interval,
            d == interval + 1,
            interval >= 0,
            c >= 0,
    {
        let q = span / d;
        let r = span % d;
        assert(span == q * d + r);
        assert(0 <= r < d);
        if c < q {
            assert(c <= q - 1);
            assert(c * d <= (q - 1) * d);
            assert((q - 1) * d == q * d - d);
        }
    }
    if interval > 0 && span <= interval * (interval + 1) {
        assert(c + 1 >= span / (interval as int)) by (nonlinear_arith)
            requires
                c >= span / d,
                d == interval + 1,
                interval > 0,
                span >= 0,
                span <= interval * d,
        {
            let q = span / d;
            let r = span % d;
            assert(span == q * d + r);
            assert(0 <= r < d);
            assert(q <= interval) by {
                if q > interval {
                    assert(q * d >= (interval + 1) * d);
                }
            }
            assert(q + r < 2 * interval + 1);
            assert(span == q * interval + (q + r));
            let i2 = interval as int;
            assert(span / i2 <= q + 1) by {
                if q + r < i2 {
                    assert(span < (q + 1) * i2);
                } else {
                    assert(q + r < 2 * i2 + 1);
                    if q + r == 2 * i2 {
                        assert(q == i2 && r == i2);
                        assert(span == i2 * d + i2);
                    }
                    assert(q + r < 2 * i2);
                    assert(span < (q + 2) * i2);
                }
            }
        }
    }
}

/// While the inner animation does not report an end, a duration limiter is
/// ended exactly when more than its duration has passed since it started; once
/// ended by the clock at some time, it stays ended at every later time.
pub proof fn lemma_time_limit<T: MaybeTerminatingAnimation>(
    anim: TimeLimitedAnimation<T>,
    now: u64,
    later: u64,
)
    ensures
        !anim.inner().maybe_ended_spec(now) ==> (anim.ended_spec(now) <==> now - anim.started()
            > anim.duration()),
        now <= later && now - anim.started() > anim.duration() ==> anim.ended_spec(later),
{
}

} // verus!
